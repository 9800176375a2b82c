//! The task control protocol, and the two halves of a task's handle.
//!
//! A task and its owner talk over two unbounded channels of the crate
//! `crossbeam`: control messages go in, result messages come out. What a
//! channel holds depends on the other side, so nothing here promises what a
//! poll returns; the decisions taken on what was received are functions of
//! their own, with exact contracts.

use vstd::prelude::*;
use crossbeam::channel::{Receiver, Sender, TryRecvError};
use crate::value::{copy_value, FasValue, ValueModel};

verus! {

/// The sending end of a `crossbeam` channel.
#[verifier::external_type_specification]
#[verifier::external_body]
#[verifier::reject_recursive_types(T)]
pub struct ExSender<T>(crossbeam::channel::Sender<T>);

/// The receiving end of a `crossbeam` channel.
#[verifier::external_type_specification]
#[verifier::external_body]
#[verifier::reject_recursive_types(T)]
pub struct ExReceiver<T>(crossbeam::channel::Receiver<T>);

/// `crossbeam::channel::unbounded`: a new channel without a capacity limit,
/// as its two ends. Nothing is claimed of them.
pub assume_specification<T>[ crossbeam::channel::unbounded::<T> ]() -> (ends: (
    Sender<T>,
    Receiver<T>,
));

/// `Clone` of a sender: another sender on the same channel. Nothing is
/// claimed of it.
pub assume_specification<T>[ <Sender<T> as Clone>::clone ](tx: &Sender<T>) -> (other: Sender<T>);

/// `Clone` of a receiver: another receiver on the same channel. Nothing is
/// claimed of it.
pub assume_specification<T>[ <Receiver<T> as Clone>::clone ](rx: &Receiver<T>) -> (other:
    Receiver<T>);

/// What one look into a channel found.
pub enum Polled<T> {
    Message(T),
    /// Nothing is waiting, but a sender is still there.
    Empty,
    /// Nothing is waiting and every sender is gone.
    Disconnected,
}

/// `Sender::send`: hands the message to the channel and says whether it was
/// taken; it is refused only when every receiver is gone. On an unbounded
/// channel the call does not block. Nothing is claimed of the answer.
#[verifier::external_body]
fn send_on<T>(tx: &Sender<T>, msg: T) -> (delivered: bool) {
    tx.send(msg).is_ok()
}

/// `Receiver::try_recv`: takes the next message if one is waiting, without
/// blocking. Nothing is claimed of what is found.
#[verifier::external_body]
fn poll_on<T>(rx: &Receiver<T>) -> (found: Polled<T>) {
    match rx.try_recv() {
        Ok(msg) => Polled::Message(msg),
        Err(TryRecvError::Empty) => Polled::Empty,
        Err(TryRecvError::Disconnected) => Polled::Disconnected,
    }
}

/// An instruction from a task's owner to the running task.
#[derive(Clone, Copy, Debug, PartialEq, Eq, Structural)]
pub enum TaskControl {
    Pause,
    Resume,
    Cancel,
    Rollback,
}

/// A report from a running task to its owner.
#[derive(Debug)]
pub enum TaskResult {
    ProgressFeedback(FasValue),
    Finish(FasValue),
    Canceled,
    Rolledback,
}

/// What a report is, as mathematics.
pub enum TaskResultModel {
    ProgressFeedback(ValueModel),
    Finish(ValueModel),
    Canceled,
    Rolledback,
}

impl View for TaskResult {
    type V = TaskResultModel;

    open spec fn view(&self) -> TaskResultModel {
        match self {
            TaskResult::ProgressFeedback(v) => TaskResultModel::ProgressFeedback(v@),
            TaskResult::Finish(v) => TaskResultModel::Finish(v@),
            TaskResult::Canceled => TaskResultModel::Canceled,
            TaskResult::Rolledback => TaskResultModel::Rolledback,
        }
    }
}

impl Clone for TaskResult {
    fn clone(&self) -> (r: Self)
        ensures
            r@ == self@,
    {
        match self {
            TaskResult::ProgressFeedback(v) => TaskResult::ProgressFeedback(copy_value(v)),
            TaskResult::Finish(v) => TaskResult::Finish(copy_value(v)),
            TaskResult::Canceled => TaskResult::Canceled,
            TaskResult::Rolledback => TaskResult::Rolledback,
        }
    }
}

/// The owner's end of a task's result channel: a `crossbeam` receiver of
/// reports. It is held opaquely because a report holds values and a value
/// may hold this end.
#[verifier::external_body]
#[derive(Debug)]
pub struct ResultReceiver {
    inner: Receiver<TaskResult>,
}

/// Holds the receiver as a task's result end.
#[verifier::external_body]
fn result_end(rx: Receiver<TaskResult>) -> (end: ResultReceiver) {
    ResultReceiver { inner: rx }
}

/// The receiver that the result end holds.
#[verifier::external_body]
fn result_channel(end: &ResultReceiver) -> (rx: &Receiver<TaskResult>) {
    &end.inner
}

/// The owner's half of a task's handle: it sends control messages and
/// receives reports.
#[derive(Debug)]
pub struct TaskValue {
    id: u64,
    ctrl_tx: Sender<TaskControl>,
    result_rx: ResultReceiver,
}

/// The task's half of its handle: it receives control messages and sends
/// reports.
#[derive(Debug)]
pub struct TaskValueShadow {
    id: u64,
    ctrl_rx: Receiver<TaskControl>,
    result_tx: Sender<TaskResult>,
}

impl View for TaskValue {
    type V = u64;

    closed spec fn view(&self) -> u64 {
        self.id
    }
}

impl View for TaskValueShadow {
    type V = u64;

    closed spec fn view(&self) -> u64 {
        self.id
    }
}

impl Clone for TaskValue {
    /// Another handle on the same task.
    fn clone(&self) -> (r: Self)
        ensures
            r@ == self@,
    {
        TaskValue {
            id: self.id,
            ctrl_tx: self.ctrl_tx.clone(),
            result_rx: result_end(result_channel(&self.result_rx).clone()),
        }
    }
}

impl Clone for TaskValueShadow {
    /// Another handle on the same task's inner side.
    fn clone(&self) -> (r: Self)
        ensures
            r@ == self@,
    {
        TaskValueShadow {
            id: self.id,
            ctrl_rx: self.ctrl_rx.clone(),
            result_tx: self.result_tx.clone(),
        }
    }
}

impl TaskValue {
    /// Makes the two halves of the handle of task number `id`, joined by a
    /// fresh control channel and a fresh result channel. There is no other
    /// way to make either half. The number is the caller's to choose, and
    /// with it the care that no two tasks get the same: the machine numbers
    /// the tasks that it invokes one after the other.
    pub fn create(id: u64) -> (pair: (TaskValue, TaskValueShadow))
        ensures
            pair.0@ == id,
            pair.1@ == id,
    {
        let (ctrl_tx, ctrl_rx) = crossbeam::channel::unbounded::<TaskControl>();
        let (result_tx, result_rx) = crossbeam::channel::unbounded::<TaskResult>();
        (
            TaskValue { id, ctrl_tx, result_rx: result_end(result_rx) },
            TaskValueShadow { id, ctrl_rx, result_tx },
        )
    }

    /// The number of the task.
    pub fn id(&self) -> (id: u64)
        ensures
            id == self@,
    {
        self.id
    }

    /// Sends a control message to the task. The answer is `false` when the
    /// task's half of the handle is gone; the message is then lost, which
    /// is no error.
    pub fn send(&self, control: TaskControl) -> (delivered: bool) {
        send_on(&self.ctrl_tx, control)
    }

    /// Looks for the task's next report, without waiting.
    pub fn poll(&self) -> (found: Polled<TaskResult>) {
        poll_on(result_channel(&self.result_rx))
    }
}

/// The looks of one draining of at most `limit` control messages, of which
/// `dropped` were found: each look but one that ends the draining found a
/// message, and the draining ends before `limit` messages were dropped only
/// on a look that found none.
pub open spec fn drained(found: Seq<Polled<TaskControl>>, limit: nat, dropped: nat) -> bool {
    &&& dropped <= limit
    &&& forall|i: int| 0 <= i < dropped && i < found.len() ==> (#[trigger] found[i]) is Message
    &&& if dropped < limit {
        found.len() == dropped + 1 && !(found[dropped as int] is Message)
    } else {
        found.len() == dropped
    }
}

impl TaskValueShadow {
    /// The number of the task.
    pub fn id(&self) -> (id: u64)
        ensures
            id == self@,
    {
        self.id
    }

    /// Looks for the owner's next control message, without waiting.
    pub fn poll_control(&self) -> (found: Polled<TaskControl>) {
        poll_on(&self.ctrl_rx)
    }

    /// Drops the control messages that are waiting, `limit` of them at
    /// most, and says how many there were: it looks for a message again and
    /// again, drops each one that it finds, and stops when a look finds
    /// none or `limit` have been dropped. What the looks find is the
    /// owner's doing; whatever they find, the answer counts the messages
    /// found, as [`drained`] says.
    pub fn drain_controls(&self, limit: usize) -> (dropped: usize)
        ensures
            dropped <= limit,
            exists|found: Seq<Polled<TaskControl>>| #[trigger]
                drained(found, limit as nat, dropped as nat),
    {
        let mut dropped: usize = 0;
        let mut more = true;
        let ghost mut seen: Seq<Polled<TaskControl>> = Seq::empty();
        while more && dropped < limit
            invariant
                dropped <= limit,
                forall|i: int| 0 <= i < dropped ==> (#[trigger] seen[i]) is Message,
                more ==> seen.len() == dropped,
                !more ==> dropped < limit && seen.len() == dropped + 1 && !(seen[dropped as int]
                    is Message),
            decreases limit - dropped + (if more { 1int } else { 0int }),
        {
            let found = self.poll_control();
            proof {
                seen = seen.push(found);
            }
            match found {
                Polled::Message(_) => {
                    dropped = dropped + 1;
                },
                _ => {
                    more = false;
                },
            }
        }
        proof {
            assert(drained(seen, limit as nat, dropped as nat));
        }
        dropped
    }

    /// Sends a report to the owner. The answer is `false` when no owner is
    /// left to receive it, which is no error.
    pub fn report(&self, result: TaskResult) -> (delivered: bool) {
        send_on(&self.result_tx, result)
    }
}

/// How an await has ended, if it has.
#[derive(Debug)]
pub enum AwaitEnd {
    /// No final report has come so far.
    Pending,
    Finished(FasValue),
    Canceled,
    Rolledback,
}

/// What an owner has learned from a task's reports so far.
#[derive(Debug)]
pub struct Awaited {
    pub end: AwaitEnd,
    /// The progress that the task reported last, before it ended.
    pub progress: Option<FasValue>,
}

pub enum AwaitEndModel {
    Pending,
    Finished(ValueModel),
    Canceled,
    Rolledback,
}

pub struct AwaitedModel {
    pub end: AwaitEndModel,
    pub progress: Option<ValueModel>,
}

impl View for Awaited {
    type V = AwaitedModel;

    open spec fn view(&self) -> AwaitedModel {
        AwaitedModel {
            end: match self.end {
                AwaitEnd::Pending => AwaitEndModel::Pending,
                AwaitEnd::Finished(v) => AwaitEndModel::Finished(v@),
                AwaitEnd::Canceled => AwaitEndModel::Canceled,
                AwaitEnd::Rolledback => AwaitEndModel::Rolledback,
            },
            progress: match self.progress {
                Some(v) => Some(v@),
                None => None,
            },
        }
    }
}

/// What was found, as mathematics.
pub open spec fn polled_model(found: Polled<TaskResult>) -> Polled<TaskResultModel> {
    match found {
        Polled::Message(m) => Polled::Message(m@),
        Polled::Empty => Polled::Empty,
        Polled::Disconnected => Polled::Disconnected,
    }
}

/// What was found look by look, as mathematics.
pub open spec fn polled_models(found: Vec<Polled<TaskResult>>) -> Seq<Polled<TaskResultModel>> {
    Seq::new(found.len() as nat, |i: int| polled_model(found[i]))
}

/// What an owner knows after one more look into the result channel. Once
/// the await has ended nothing changes it. Progress is noted and the await
/// goes on. A finish ends it with the value reported; a cancellation or a
/// rollback ends it without one. A channel that every sender has left
/// counts as a cancellation. An empty channel changes nothing.
pub open spec fn absorbed(known: AwaitedModel, found: Polled<TaskResultModel>) -> AwaitedModel {
    if !(known.end is Pending) {
        known
    } else {
        match found {
            Polled::Message(TaskResultModel::ProgressFeedback(v)) => AwaitedModel {
                end: AwaitEndModel::Pending,
                progress: Some(v),
            },
            Polled::Message(TaskResultModel::Finish(v)) => AwaitedModel {
                end: AwaitEndModel::Finished(v),
                progress: known.progress,
            },
            Polled::Message(TaskResultModel::Canceled) => AwaitedModel {
                end: AwaitEndModel::Canceled,
                progress: known.progress,
            },
            Polled::Message(TaskResultModel::Rolledback) => AwaitedModel {
                end: AwaitEndModel::Rolledback,
                progress: known.progress,
            },
            Polled::Empty => known,
            Polled::Disconnected => AwaitedModel {
                end: AwaitEndModel::Canceled,
                progress: known.progress,
            },
        }
    }
}

/// What an owner knows after the looks in `found`, taken in order.
pub open spec fn awaited(found: Seq<Polled<TaskResultModel>>) -> AwaitedModel
    decreases found.len(),
{
    if found.len() == 0 {
        AwaitedModel { end: AwaitEndModel::Pending, progress: None }
    } else {
        absorbed(awaited(found.drop_last()), found.last())
    }
}

/// A look that cannot end an await: nothing was there, or progress.
pub open spec fn not_final(found: Polled<TaskResultModel>) -> bool {
    found is Empty || found matches Polled::Message(TaskResultModel::ProgressFeedback(_))
}

/// Looks that cannot end an await leave it pending.
pub proof fn lemma_still_pending(found: Seq<Polled<TaskResultModel>>)
    requires
        forall|i: int| 0 <= i < found.len() ==> not_final(#[trigger] found[i]),
    ensures
        awaited(found).end is Pending,
    decreases found.len(),
{
    if found.len() > 0 {
        lemma_still_pending(found.drop_last());
        assert(not_final(found[found.len() - 1]));
    }
}

/// A finish that the task has reported is what the await ends with: the
/// value is held until it is looked for, whatever progress came before it,
/// however often the channel was found empty in between, and whatever the
/// channel yields afterwards.
pub proof fn lemma_finish_is_kept(
    before: Seq<Polled<TaskResultModel>>,
    v: ValueModel,
    after: Seq<Polled<TaskResultModel>>,
)
    requires
        forall|i: int| 0 <= i < before.len() ==> not_final(#[trigger] before[i]),
    ensures
        awaited(before + seq![Polled::Message(TaskResultModel::Finish(v))] + after).end
            == AwaitEndModel::Finished(v),
    decreases after.len(),
{
    let upto = before + seq![Polled::Message(TaskResultModel::Finish(v))];
    if after.len() == 0 {
        assert(upto + after =~= upto);
        assert(upto.drop_last() =~= before);
        lemma_still_pending(before);
    } else {
        lemma_finish_is_kept(before, v, after.drop_last());
        assert((upto + after).drop_last() =~= upto + after.drop_last());
        assert((upto + after).last() == after.last());
    }
}

impl Awaited {
    /// What is known before the first look: nothing.
    pub fn new() -> (known: Awaited)
        ensures
            known@ == awaited(Seq::empty()),
    {
        Awaited { end: AwaitEnd::Pending, progress: None }
    }

    /// Whether no final report has come so far.
    pub fn is_pending(&self) -> (pending: bool)
        ensures
            pending == (self@.end is Pending),
    {
        match self.end {
            AwaitEnd::Pending => true,
            _ => false,
        }
    }

    /// Takes in what one more look found.
    pub fn absorb(&mut self, found: Polled<TaskResult>)
        ensures
            final(self)@ == absorbed(old(self)@, polled_model(found)),
    {
        if self.is_pending() {
            match found {
                Polled::Message(TaskResult::ProgressFeedback(v)) => {
                    self.progress = Some(v);
                },
                Polled::Message(TaskResult::Finish(v)) => {
                    self.end = AwaitEnd::Finished(v);
                },
                Polled::Message(TaskResult::Canceled) => {
                    self.end = AwaitEnd::Canceled;
                },
                Polled::Message(TaskResult::Rolledback) => {
                    self.end = AwaitEnd::Rolledback;
                },
                Polled::Empty => {},
                Polled::Disconnected => {
                    self.end = AwaitEnd::Canceled;
                },
            }
        }
    }

    /// The value that the await gives once it has ended: the value of a
    /// finish, and null after a cancellation or a rollback.
    pub fn result(&self) -> (value: Option<FasValue>)
        ensures
            match self@.end {
                AwaitEndModel::Pending => value is None,
                AwaitEndModel::Finished(v) => value is Some && value->Some_0@ == v,
                _ => value is Some && value->Some_0@ == ValueModel::Null,
            },
    {
        match &self.end {
            AwaitEnd::Pending => None,
            AwaitEnd::Finished(v) => Some(copy_value(v)),
            AwaitEnd::Canceled => Some(FasValue::Null),
            AwaitEnd::Rolledback => Some(FasValue::Null),
        }
    }
}

/// A copy of what was found.
fn copy_polled(found: &Polled<TaskResult>) -> (r: Polled<TaskResult>)
    ensures
        polled_model(r) == polled_model(*found),
{
    match found {
        Polled::Message(m) => Polled::Message(m.clone()),
        Polled::Empty => Polled::Empty,
        Polled::Disconnected => Polled::Disconnected,
    }
}

/// What an owner knows after the looks in `found`, taken in order.
pub fn resolve(found: &Vec<Polled<TaskResult>>) -> (known: Awaited)
    ensures
        known@ == awaited(polled_models(*found)),
{
    let ghost all = polled_models(*found);
    let mut known = Awaited::new();
    let mut done: usize = 0;
    proof {
        assert(all.take(0) =~= Seq::<Polled<TaskResultModel>>::empty());
    }
    while done < found.len()
        invariant
            done <= found.len(),
            all == polled_models(*found),
            known@ == awaited(all.take(done as int)),
        decreases found.len() - done,
    {
        let next = copy_polled(&found[done]);
        proof {
            assert(polled_model(next) == all[done as int]);
            assert(all.take(done + 1).drop_last() =~= all.take(done as int));
            assert(all.take(done + 1).last() == all[done as int]);
        }
        known.absorb(next);
        done = done + 1;
    }
    proof {
        assert(all.take(found.len() as int) =~= all);
    }
    known
}

/// A look that found progress, after which an await goes on looking.
pub open spec fn is_progress(found: Polled<TaskResultModel>) -> bool {
    found matches Polled::Message(TaskResultModel::ProgressFeedback(_))
}

/// The looks of one try of an await that may take `limit` looks: every look
/// before the last found progress, and the try takes fewer than `limit`
/// looks only where its last look found the channel empty, found the final
/// report, or found that the task is gone.
pub open spec fn looks_of_try(found: Seq<Polled<TaskResultModel>>, limit: nat) -> bool {
    &&& found.len() <= limit
    &&& forall|i: int| 0 <= i < found.len() - 1 ==> is_progress(#[trigger] found[i])
    &&& found.len() < limit ==> found.len() > 0 && !is_progress(found.last())
}

/// A try that has taken all its looks without an end has found nothing but
/// progress, and a try that stays pending otherwise has found the channel
/// empty at last: an await is pending after a try only because the task
/// has not reported its end so far.
pub proof fn lemma_pending_try(found: Seq<Polled<TaskResultModel>>, limit: nat)
    requires
        looks_of_try(found, limit),
        awaited(found).end is Pending,
    ensures
        found.len() == limit || found.last() is Empty,
        forall|i: int| 0 <= i < found.len() ==> not_final(#[trigger] found[i]),
{
    if found.len() > 0 {
        let before = found.drop_last();
        assert forall|i: int| 0 <= i < before.len() implies not_final(#[trigger] before[i]) by {
            assert(is_progress(found[i]));
        }
        lemma_still_pending(before);
        assert forall|i: int| 0 <= i < found.len() implies not_final(#[trigger] found[i]) by {
            if i < found.len() - 1 {
                assert(is_progress(found[i]));
            }
        }
    }
}

impl TaskValue {
    /// Looks into the result channel until the await has ended, the channel
    /// is found empty, or `limit` looks have been taken, and says what is
    /// known then. What the looks find is the task's doing; whatever they
    /// find, they are taken as [`looks_of_try`] says, and the answer is
    /// what [`awaited`] makes of them.
    pub fn try_await(&self, limit: usize) -> (known: Awaited)
        ensures
            exists|found: Seq<Polled<TaskResultModel>>|
                looks_of_try(found, limit as nat) && known@ == #[trigger] awaited(found),
            limit == 0 ==> known@ == awaited(Seq::empty()),
    {
        let mut known = Awaited::new();
        let ghost mut seen: Seq<Polled<TaskResultModel>> = Seq::empty();
        let mut looks: usize = 0;
        let mut empty = false;
        while looks < limit && !empty && known.is_pending()
            invariant
                looks <= limit,
                seen.len() == looks,
                known@ == awaited(seen),
                limit == 0 ==> seen.len() == 0,
                forall|i: int| 0 <= i < seen.len() - 1 ==> is_progress(#[trigger] seen[i]),
                !empty && known@.end is Pending ==> forall|i: int|
                    0 <= i < seen.len() ==> is_progress(#[trigger] seen[i]),
                empty || !(known@.end is Pending) ==> seen.len() > 0 && !is_progress(seen.last()),
            decreases limit - looks,
        {
            let found = self.poll();
            empty = match found {
                Polled::Empty => true,
                _ => false,
            };
            proof {
                let longer = seen.push(polled_model(found));
                assert(longer.drop_last() =~= seen);
                assert(longer.last() == polled_model(found));
                assert forall|i: int| 0 <= i < longer.len() - 1 implies is_progress(
                    #[trigger] longer[i],
                ) by {
                    assert(longer[i] == seen[i]);
                }
                seen = longer;
            }
            known.absorb(found);
            looks = looks + 1;
        }
        proof {
            assert(looks_of_try(seen, limit as nat));
            if limit == 0 {
                assert(seen =~= Seq::<Polled<TaskResultModel>>::empty());
            }
        }
        known
    }
}

} // verus!

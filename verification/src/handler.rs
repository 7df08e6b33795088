//! The handlers. Each request is one linear run: it is routed, a write is
//! validated, one call goes to the storage, and the answer becomes the response.
//!
//! [`begin`] decides the call and [`finish`] decides the response. A caller
//! whose storage answers later makes the call between the two. The functions
//! that are generic over [`Storage`] run both around a storage that answers at
//! once; of their result only that much is known as holds whatever the storage
//! answers. [`serve`] runs a request on a store in memory, and its result is
//! known exactly.

use crate::config::{HandlerConfig, ReadMode};
use crate::expiry::{expiry_after, expiry_at};
use crate::item::AttributeValueView;
use crate::payload::{decode_body, decoded_body};
use crate::record::{build_record, payload_of, record_item, stored_payload};
use crate::request::{Method, Request};
use crate::response::{respond, response_for, Outcome, OutcomeView, Response, ResponseView};
use crate::router::{key_after, operation_for, resource_key, route, Operation};
use crate::storage::{
    answers, perform, BackendError, GetErrorView, Storage, StorageCall, StorageCallView,
    StorageReply, StorageReplyView,
};
use crate::store::{answer_model, InMemoryStore, StoreView};
use std::time::{Duration, UNIX_EPOCH};
use vstd::prelude::*;
use vstd::string::*;

verus! {

/// Why an invocation ended without a response.
#[derive(Debug, PartialEq, Eq)]
pub enum Failure {
    /// The method of the request selects no operation.
    UnsupportedMethod,
    /// The path of the request is shorter than the prefix of the handler, or the
    /// prefix ends inside a character of it.
    KeyNotInPath,
    /// The clock of the machine stands before the epoch.
    ClockBeforeEpoch,
    /// The expiry of the record does not fit in 64 bits.
    ExpiryOutOfRange,
    /// The backend failed while writing.
    Backend(BackendError),
}

/// The mathematical value of a [`Failure`].
pub enum FailureView {
    UnsupportedMethod,
    KeyNotInPath,
    ClockBeforeEpoch,
    ExpiryOutOfRange,
    Backend(Seq<char>),
}

impl View for Failure {
    type V = FailureView;

    open spec fn view(&self) -> FailureView {
        match self {
            Failure::UnsupportedMethod => FailureView::UnsupportedMethod,
            Failure::KeyNotInPath => FailureView::KeyNotInPath,
            Failure::ClockBeforeEpoch => FailureView::ClockBeforeEpoch,
            Failure::ExpiryOutOfRange => FailureView::ExpiryOutOfRange,
            Failure::Backend(error) => FailureView::Backend(error@),
        }
    }
}

/// What a handler does next.
#[derive(Debug)]
pub enum Step {
    /// Make this call on the storage, and hand the answer to [`finish`].
    Call(StorageCall),
    /// Send this response.
    Reply(Response),
    /// End the invocation without a response.
    Fail(Failure),
}

/// The mathematical value of a [`Step`].
pub enum StepView {
    Call(StorageCallView),
    Reply(ResponseView),
    Fail(FailureView),
}

impl View for Step {
    type V = StepView;

    open spec fn view(&self) -> StepView {
        match self {
            Step::Call(call) => StepView::Call(call@),
            Step::Reply(response) => StepView::Reply(response@),
            Step::Fail(failure) => StepView::Fail(failure@),
        }
    }
}

/// The mathematical value of the result of an invocation.
pub open spec fn result_view(result: Result<Response, Failure>) -> Result<
    ResponseView,
    FailureView,
> {
    match result {
        Ok(response) => Ok(response@),
        Err(failure) => Err(failure@),
    }
}

/// The response of `config`'s handler to `outcome`.
pub open spec fn reply_for(config: HandlerConfig, outcome: OutcomeView) -> ResponseView {
    response_for(config.id_field@, config.backend@, outcome)
}

/// The expiry of a record that `config`'s handler writes at `now`.
pub open spec fn expiry_of_write(config: HandlerConfig, now: u64) -> Option<u64> {
    if config.expiring {
        Some(expiry_after(now as int) as u64)
    } else {
        None
    }
}

/// The first step of a write: the body is validated, then the key is taken from
/// the path, then the record is put together.
pub open spec fn write_step(
    config: HandlerConfig,
    path: Seq<char>,
    body: Seq<u8>,
    now: u64,
) -> StepView {
    match decoded_body(config.write_mode, body) {
        None => StepView::Reply(reply_for(config, OutcomeView::Invalid)),
        Some((field, content)) => match key_after(path, config.write_prefix_len as int) {
            None => StepView::Fail(FailureView::KeyNotInPath),
            Some(key) => if config.expiring && expiry_after(now as int) > u64::MAX {
                StepView::Fail(FailureView::ExpiryOutOfRange)
            } else {
                StepView::Call(
                    StorageCallView::Put {
                        table: config.table_name@,
                        key,
                        item: record_item(
                            config.id_field@,
                            key,
                            field,
                            content,
                            expiry_of_write(config, now),
                        ),
                    },
                )
            },
        },
    }
}

/// The first step of a read: the key is taken from the path.
pub open spec fn read_step(config: HandlerConfig, path: Seq<char>) -> StepView {
    match key_after(path, config.read_prefix_len as int) {
        None => StepView::Fail(FailureView::KeyNotInPath),
        Some(key) => match config.read_mode {
            ReadMode::Count { field, limit } => StepView::Call(
                StorageCallView::Query {
                    table: config.table_name@,
                    field: field@,
                    value: key,
                    limit,
                },
            ),
            _ => StepView::Call(StorageCallView::Get { table: config.table_name@, key }),
        },
    }
}

/// What a read came to. A backend failure reads as a record that is missing. A
/// record without payload is missing where the payload is asked for, and exists
/// where it is not.
pub open spec fn read_outcome(
    mode: ReadMode,
    fetched: Result<Map<Seq<char>, AttributeValueView>, GetErrorView>,
) -> OutcomeView {
    match fetched {
        Err(_) => OutcomeView::Missing,
        Ok(item) => match mode {
            ReadMode::Payload => match stored_payload(item) {
                Some(payload) => OutcomeView::Found(payload),
                None => OutcomeView::Missing,
            },
            _ => OutcomeView::Exists,
        },
    }
}

/// The last step: what the storage answered becomes the response. Only a write
/// that the backend failed ends without one.
pub open spec fn finish_spec(config: HandlerConfig, reply: StorageReplyView) -> Result<
    ResponseView,
    FailureView,
> {
    match reply {
        StorageReplyView::Stored(Ok(_)) => Ok(reply_for(config, OutcomeView::Written)),
        StorageReplyView::Stored(Err(error)) => Err(FailureView::Backend(error)),
        StorageReplyView::Fetched(fetched) => Ok(
            reply_for(config, read_outcome(config.read_mode, fetched)),
        ),
        StorageReplyView::Counted(Ok(count)) => Ok(reply_for(config, OutcomeView::Counted(count))),
        StorageReplyView::Counted(Err(_)) => Ok(reply_for(config, OutcomeView::Missing)),
    }
}

/// The first step of a request: the method selects the operation.
pub open spec fn first_step(
    config: HandlerConfig,
    method: Method,
    path: Seq<char>,
    body: Seq<u8>,
    now: u64,
) -> StepView {
    match operation_for(method) {
        None => StepView::Fail(FailureView::UnsupportedMethod),
        Some(Operation::Write) => write_step(config, path, body, now),
        Some(Operation::Read) => read_step(config, path),
    }
}

/// Decides the first step of a write request that arrived at `now`, in seconds
/// since the epoch.
pub fn begin_write(config: &HandlerConfig, event: &Request, now: u64) -> (step: Step)
    ensures
        step@ == write_step(*config, event.path@, event.body@, now),
{
    let (field, content) = match decode_body(&config.write_mode, event.body.as_slice()) {
        Some(decoded) => decoded,
        None => {
            return Step::Reply(
                respond(config.id_field.as_str(), config.backend.as_str(), &Outcome::Invalid),
            );
        },
    };
    let key = match resource_key(event.path.as_str(), config.write_prefix_len) {
        Some(key) => key,
        None => {
            return Step::Fail(Failure::KeyNotInPath);
        },
    };
    let expiry = if config.expiring {
        match expiry_at(now) {
            Some(at) => Some(at),
            None => {
                return Step::Fail(Failure::ExpiryOutOfRange);
            },
        }
    } else {
        None
    };
    let item = build_record(
        config.id_field.as_str(),
        key,
        field.as_str(),
        content.as_str(),
        expiry,
    );
    Step::Call(
        StorageCall::Put { table: config.table_name.clone(), key: String::from_str(key), item },
    )
}

/// Decides the first step of a read request.
pub fn begin_read(config: &HandlerConfig, event: &Request) -> (step: Step)
    ensures
        step@ == read_step(*config, event.path@),
{
    let key = match resource_key(event.path.as_str(), config.read_prefix_len) {
        Some(key) => key,
        None => {
            return Step::Fail(Failure::KeyNotInPath);
        },
    };
    match &config.read_mode {
        ReadMode::Count { field, limit } => Step::Call(
            StorageCall::Query {
                table: config.table_name.clone(),
                field: field.clone(),
                value: String::from_str(key),
                limit: *limit,
            },
        ),
        _ => Step::Call(
            StorageCall::Get { table: config.table_name.clone(), key: String::from_str(key) },
        ),
    }
}

/// Decides the first step of a request that arrived at `now`, in seconds since
/// the epoch. The time matters to a write of a record that expires, and to
/// nothing else.
pub fn begin(config: &HandlerConfig, event: &Request, now: u64) -> (step: Step)
    ensures
        step@ == first_step(*config, event.method, event.path@, event.body@, now),
{
    match route(event.method) {
        Some(Operation::Write) => begin_write(config, event, now),
        Some(Operation::Read) => begin_read(config, event),
        None => Step::Fail(Failure::UnsupportedMethod),
    }
}

/// Decides the response from what the storage answered.
pub fn finish(config: &HandlerConfig, reply: StorageReply) -> (result: Result<Response, Failure>)
    ensures
        result_view(result) == finish_spec(*config, reply@),
{
    let outcome = match reply {
        StorageReply::Stored(Ok(())) => Outcome::Written,
        StorageReply::Stored(Err(error)) => {
            return Err(Failure::Backend(error));
        },
        StorageReply::Fetched(Ok(item)) => match &config.read_mode {
            ReadMode::Payload => match payload_of(&item) {
                Some(payload) => Outcome::Found(payload),
                None => Outcome::Missing,
            },
            _ => Outcome::Exists,
        },
        StorageReply::Fetched(Err(_)) => Outcome::Missing,
        StorageReply::Counted(Ok(count)) => Outcome::Counted(count),
        StorageReply::Counted(Err(_)) => Outcome::Missing,
    };
    Ok(respond(config.id_field.as_str(), config.backend.as_str(), &outcome))
}

/// True when `result` is what `step` leads to: the response or the failure that
/// the step names or, after a call, what [`finish`] makes of some answer to it.
pub open spec fn settles(
    config: HandlerConfig,
    step: StepView,
    result: Result<ResponseView, FailureView>,
) -> bool {
    match step {
        StepView::Reply(response) => result == Ok::<ResponseView, FailureView>(response),
        StepView::Fail(failure) => result == Err::<ResponseView, FailureView>(failure),
        StepView::Call(call) => exists|reply: StorageReplyView|
            answers(call, reply) && result == #[trigger] finish_spec(config, reply),
    }
}

/// Carries `step` out on `storage`.
pub fn run<S: Storage>(config: &HandlerConfig, step: Step, storage: &mut S) -> (result: Result<
    Response,
    Failure,
>)
    ensures
        settles(*config, step@, result_view(result)),
{
    match step {
        Step::Call(call) => {
            let ghost asked = call@;
            let reply = perform(storage, call);
            let ghost answered = reply@;
            let result = finish(config, reply);
            assert(answers(asked, answered) && result_view(result) == finish_spec(
                *config,
                answered,
            ));
            result
        },
        Step::Reply(response) => Ok(response),
        Step::Fail(failure) => Err(failure),
    }
}

/// Handles a write request that arrived at `now`.
pub fn post_client_id<S: Storage>(
    config: &HandlerConfig,
    event: &Request,
    ddb_client: &mut S,
    now: u64,
) -> (result: Result<Response, Failure>)
    ensures
        settles(*config, write_step(*config, event.path@, event.body@, now), result_view(result)),
{
    let step = begin_write(config, event, now);
    run(config, step, ddb_client)
}

/// Handles a read request.
pub fn get_client_id<S: Storage>(
    config: &HandlerConfig,
    event: &Request,
    ddb_client: &mut S,
) -> (result: Result<Response, Failure>)
    ensures
        settles(*config, read_step(*config, event.path@), result_view(result)),
{
    let step = begin_read(config, event);
    run(config, step, ddb_client)
}

/// True when `result` is what the request leads to, where `now` is the moment
/// at which it arrived.
pub open spec fn handles(
    config: HandlerConfig,
    method: Method,
    path: Seq<char>,
    body: Seq<u8>,
    now: u64,
    result: Result<ResponseView, FailureView>,
) -> bool {
    settles(config, first_step(config, method, path, body, now), result)
}

/// Handles a request that arrived at `now`: routes it and runs the operation.
pub fn handle_at<S: Storage>(
    config: &HandlerConfig,
    event: &Request,
    storage: &mut S,
    now: u64,
) -> (result: Result<Response, Failure>)
    ensures
        handles(*config, event.method, event.path@, event.body@, now, result_view(result)),
{
    let step = begin(config, event, now);
    run(config, step, storage)
}

/// What a request leads to on a store in memory: the store behind it, and the
/// response or the failure.
pub open spec fn served(
    config: HandlerConfig,
    store: StoreView,
    method: Method,
    path: Seq<char>,
    body: Seq<u8>,
    now: u64,
) -> (StoreView, Result<ResponseView, FailureView>) {
    match first_step(config, method, path, body, now) {
        StepView::Call(call) => {
            let answered = answer_model(store, call);
            (answered.0, finish_spec(config, answered.1))
        },
        StepView::Reply(response) => (store, Ok(response)),
        StepView::Fail(failure) => (store, Err(failure)),
    }
}

/// Handles a request that arrived at `now` on a store in memory.
pub fn serve(
    config: &HandlerConfig,
    event: &Request,
    store: &mut InMemoryStore,
    now: u64,
) -> (result: Result<Response, Failure>)
    ensures
        (final(store)@, result_view(result)) == served(
            *config,
            old(store)@,
            event.method,
            event.path@,
            event.body@,
            now,
        ),
{
    match begin(config, event, now) {
        Step::Call(call) => {
            let reply = store.answer(call);
            finish(config, reply)
        },
        Step::Reply(response) => Ok(response),
        Step::Fail(failure) => Err(failure),
    }
}

/// `SystemTime::elapsed`, on the epoch: the time that the clock of the machine
/// stands past the epoch, or nothing where it stands before it. Nothing is
/// claimed of that time.
#[verifier::external_body]
fn since_epoch() -> (elapsed: Option<Duration>) {
    UNIX_EPOCH.elapsed().ok()
}

/// `Duration::as_secs`: the whole seconds of a duration. Nothing is claimed of
/// their number.
pub assume_specification[ Duration::as_secs ](duration: &Duration) -> (seconds: u64)
;

/// Reads the moment of a write off the clock of the machine, in seconds since
/// the epoch.
pub fn write_time() -> (now: Result<u64, Failure>)
    ensures
        now matches Err(failure) ==> failure@ == FailureView::ClockBeforeEpoch,
{
    match since_epoch() {
        Some(elapsed) => Ok(elapsed.as_secs()),
        None => Err(Failure::ClockBeforeEpoch),
    }
}

/// True when handling the request takes the time of day.
pub open spec fn reads_clock(config: HandlerConfig, method: Method) -> bool {
    config.expiring && operation_for(method) == Some(Operation::Write)
}

/// Handles a request that arrives now. The clock is read for a write of a
/// record that expires, and for nothing else.
pub fn function_handler<S: Storage>(
    config: &HandlerConfig,
    event: &Request,
    storage: &mut S,
) -> (result: Result<Response, Failure>)
    ensures
        (reads_clock(*config, event.method) && result_view(result) == Err::<
            ResponseView,
            FailureView,
        >(FailureView::ClockBeforeEpoch)) || exists|now: u64| #[trigger]
            handles(*config, event.method, event.path@, event.body@, now, result_view(result)),
{
    let timed = config.expiring && match event.method {
        Method::Post => true,
        _ => false,
    };
    let now: u64 = if timed {
        match write_time() {
            Ok(seconds) => seconds,
            Err(failure) => {
                return Err(failure);
            },
        }
    } else {
        0
    };
    handle_at(config, event, storage, now)
}

} // verus!

//! What holds of whole transactions.
use vstd::prelude::*;

use crate::devices::table::{law_every_entry_agrees_on_the_protocol, table};
use crate::hid::error::HidError;
use crate::hid::mock::{MockClock, MockTransport};
use crate::hid::session::{
    attempt_step, ends_with, exchange_step, hidraw_buffer, lifted, read_step, reads_as, rejected_run,
    retry_delay, send_step, Clock, Session, MAX_ATTEMPTS,
};
use crate::hid::transport::{FeatureTransport, HIDRAW_BUF_LEN};
use crate::proto::crc::checksum_valid;
use crate::proto::error::ProtoError;
use crate::proto::parse::{
    law_only_an_echo_is_accepted, law_what_may_be_sent, request_fault, response_fault,
    serial_reading,
};
use crate::proto::report::{
    law_decoding_layout, law_transaction_id_only_touches_byte_one, lemma_decoding_is_unique,
    RazerReport, Status, ARGS_LEN,
};
use crate::time::Duration;

verus! {

/// Whatever the caller left in the report, the buffer that leaves carries
/// report id 0, the session's transaction id in byte 1 of the report, and a
/// valid checksum; a different transaction id changes that one byte and nothing
/// else.
pub proof fn law_every_buffer_carries_the_session_id(
    request: RazerReport,
    tid: u8,
    other: u8,
    left: u8,
)
    ensures
        hidraw_buffer(request, tid).len() == HIDRAW_BUF_LEN,
        hidraw_buffer(request, tid)[0] == 0,
        hidraw_buffer(request, tid)[2] == tid,
        checksum_valid(hidraw_buffer(request, tid).skip(1)),
        hidraw_buffer(request, other) == hidraw_buffer(request, tid).update(2, other),
        hidraw_buffer((RazerReport { transaction_id: left, ..request }), tid) == hidraw_buffer(
            request,
            tid,
        ),
{
    let stamped = RazerReport { transaction_id: tid, ..request };
    law_transaction_id_only_touches_byte_one(stamped, other);
    assert(hidraw_buffer(request, tid).skip(1) =~= stamped.frame());
    assert((RazerReport { transaction_id: other, ..stamped }) == (RazerReport {
        transaction_id: other,
        ..request
    }));
    assert(hidraw_buffer(request, other) =~= hidraw_buffer(request, tid).update(2, other));
    assert((RazerReport {
        transaction_id: tid,
        ..(RazerReport { transaction_id: left, ..request })
    }) == stamped);
}

/// A malformed request never reaches the transport: it is refused on the first
/// attempt, and neither the transport nor the clock sees anything.
pub proof fn law_malformed_requests_never_leave<'a, T: FeatureTransport, C: Clock>(
    session: Session<'a, T, C>,
    request: RazerReport,
    after: Session<'a, T, C>,
    result: Result<RazerReport, HidError>,
)
    requires
        session.transacts(request, &after, result),
        request_fault(request) is Some,
    ensures
        after.device() == session.device(),
        after.timer() == session.timer(),
        result == Err::<RazerReport, HidError>(HidError::Proto(request_fault(request)->0)),
        after.attempts() == 1,
        after.echoed() == session.echoed(),
{
    let tid = session.tid();
    let wait = session.bound_entry().wait;
    let (ts, cs, rejected, reply) = choose|
        ts: Seq<T>,
        cs: Seq<C>,
        rejected: Seq<RazerReport>,
        reply: Result<RazerReport, HidError>,
    | #[trigger]
        session.transacts_by(request, &after, result, ts, cs, rejected, reply);
    if rejected.len() > 0 {
        let first: Result<RazerReport, HidError> = Ok(rejected[0]);
        assert(attempt_step(request, tid, wait, 0, ts[0], cs[0], ts[1], cs[1], first));
        lemma_malformed_attempt(request, tid, wait, ts[0], cs[0], ts[1], cs[1], first);
        assert(false);
    }
    lemma_malformed_attempt(
        request,
        tid,
        wait,
        ts[0],
        cs[0],
        after.device(),
        after.timer(),
        reply,
    );
}

/// A first attempt of a malformed request does nothing but fail.
proof fn lemma_malformed_attempt<T: FeatureTransport, C: Clock>(
    request: RazerReport,
    tid: u8,
    wait: Duration,
    t0: T,
    c0: C,
    t1: T,
    c1: C,
    reply: Result<RazerReport, HidError>,
)
    requires
        attempt_step(request, tid, wait, 0, t0, c0, t1, c1, reply),
        request_fault(request) is Some,
    ensures
        t1 == t0,
        c1 == c0,
        reply == Err::<RazerReport, HidError>(HidError::Proto(request_fault(request)->0)),
{
}

/// No transaction takes more than five attempts, and one that used up all five
/// without an answer to accept says so with the protocol error of the fifth.
pub proof fn law_attempts_are_bounded<'a, T: FeatureTransport, C: Clock>(
    session: Session<'a, T, C>,
    request: RazerReport,
    after: Session<'a, T, C>,
    result: Result<RazerReport, HidError>,
)
    requires
        session.transacts(request, &after, result),
    ensures
        1 <= after.attempts() <= MAX_ATTEMPTS,
        result is Ok ==> {
            &&& response_fault(request, result->Ok_0) is None
            &&& after.echoed() == Some(result->Ok_0.transaction_id)
        },
{
}

// ---------------------------------------------------------------------------
// Over the mock transport and clock
// ---------------------------------------------------------------------------

/// The sleeps of `n` attempts: the device wait after each, and 10 ms between
/// them.
pub open spec fn sleep_schedule(n: nat, wait: Duration) -> Seq<Duration>
    decreases n,
{
    if n == 0 {
        Seq::empty()
    } else if n == 1 {
        seq![wait]
    } else {
        sleep_schedule((n - 1) as nat, wait).push(Duration { nanos: 10_000_000 }).push(wait)
    }
}

/// `n` copies of a buffer.
pub open spec fn copies(buffer: Seq<u8>, n: nat) -> Seq<Seq<u8>> {
    Seq::new(n, |i: int| buffer)
}

/// One attempt over the mocks: one buffer out, one queued response in.
proof fn lemma_mock_attempt(
    request: RazerReport,
    tid: u8,
    wait: Duration,
    n: nat,
    t0: MockTransport,
    c0: MockClock,
    t1: MockTransport,
    c1: MockClock,
    reply: Result<RazerReport, HidError>,
)
    requires
        attempt_step(request, tid, wait, n, t0, c0, t1, c1, reply),
        request_fault(request) is None,
        t0.failing() is None,
    ensures
        t1.failing() is None,
        t1.sent_buffers() == t0.sent_buffers().push(hidraw_buffer(request, tid)),
        c1.slept() == (if n == 0 {
            c0.slept().push(wait)
        } else {
            c0.slept().push(retry_delay()).push(wait)
        }),
        if t0.queued().len() > 0 {
            &&& t1.queued() == t0.queued().skip(1)
            &&& reply is Ok
            &&& reply->Ok_0.decodes(t0.queued()[0].skip(1))
        } else {
            &&& t1.queued() == t0.queued()
            &&& reply == Err::<RazerReport, HidError>(HidError::ShortRead { got: 0 })
        },
{
    let rested = choose|rested: MockClock|
        #![trigger exchange_step(request, tid, wait, t0, rested, t1, c1, reply)]
        (if n == 0 {
            rested == c0
        } else {
            c0.sleeps_for(retry_delay(), &rested)
        }) && exchange_step(request, tid, wait, t0, rested, t1, c1, reply);
    let (between, sent) = choose|between: MockTransport, sent: Result<(), HidError>|
        #![trigger send_step(request, tid, wait, t0, rested, between, c1, sent)]
        send_step(request, tid, wait, t0, rested, between, c1, sent) && match sent {
            Err(e) => t1 == between && reply == Err::<RazerReport, HidError>(e),
            Ok(_) => read_step(between, t1, reply),
        };
    assert(read_step(between, t1, reply));
}

/// Where a run of rejected attempts over the mocks stands after each of them.
proof fn lemma_mock_run(
    request: RazerReport,
    tid: u8,
    wait: Duration,
    ts: Seq<MockTransport>,
    cs: Seq<MockClock>,
    rejected: Seq<RazerReport>,
    i: nat,
)
    requires
        rejected_run(request, tid, wait, ts, cs, rejected),
        request_fault(request) is None,
        ts[0].failing() is None,
        i <= rejected.len(),
    ensures
        ts[i as int].failing() is None,
        ts[i as int].sent_buffers() == ts[0].sent_buffers() + copies(
            hidraw_buffer(request, tid),
            i,
        ),
        cs[i as int].slept() == cs[0].slept() + sleep_schedule(i, wait),
        i <= ts[0].queued().len(),
        ts[i as int].queued() == ts[0].queued().skip(i as int),
        forall|k: int|
            0 <= k < i ==> (#[trigger] rejected[k]).decodes(ts[0].queued()[k].skip(1)),
    decreases i,
{
    let buffer = hidraw_buffer(request, tid);
    if i == 0 {
        assert(ts[0].sent_buffers() + copies(buffer, 0) =~= ts[0].sent_buffers());
        assert(cs[0].slept() + sleep_schedule(0, wait) =~= cs[0].slept());
        assert(ts[0].queued().skip(0) =~= ts[0].queued());
    } else {
        let j = (i - 1) as nat;
        lemma_mock_run(request, tid, wait, ts, cs, rejected, j);
        let reply: Result<RazerReport, HidError> = Ok(rejected[j as int]);
        assert(rejected[j as int] == rejected[i - 1]);
        lemma_mock_attempt(
            request,
            tid,
            wait,
            j,
            ts[j as int],
            cs[j as int],
            ts[i as int],
            cs[i as int],
            reply,
        );
        assert(ts[j as int].sent_buffers().push(buffer) =~= ts[0].sent_buffers() + copies(
            buffer,
            i,
        ));
        assert(cs[i as int].slept() =~= cs[0].slept() + sleep_schedule(i, wait));
        assert(ts[0].queued().skip(j as int)[0] == ts[0].queued()[j as int]);
        assert(ts[0].queued().skip(j as int).skip(1) =~= ts[0].queued().skip(i as int));
    }
}

/// Each attempt of a transaction sends the same buffer again, waits for the
/// device after it, and rests between attempts; each consumes one queued
/// response.
pub proof fn law_a_retry_repeats_the_whole_exchange<'a>(
    session: Session<'a, MockTransport, MockClock>,
    request: RazerReport,
    after: Session<'a, MockTransport, MockClock>,
    result: Result<RazerReport, HidError>,
)
    requires
        session.transacts(request, &after, result),
        request_fault(request) is None,
        session.device().failing() is None,
    ensures
        after.device().sent_buffers() == session.device().sent_buffers() + copies(
            hidraw_buffer(request, session.tid()),
            after.attempts() as nat,
        ),
        after.timer().slept() == session.timer().slept() + sleep_schedule(
            after.attempts() as nat,
            session.bound_entry().wait,
        ),
        after.device().queued() == session.device().queued().skip(
            if after.attempts() <= session.device().queued().len() {
                after.attempts() as int
            } else {
                session.device().queued().len() as int
            },
        ),
{
    let tid = session.tid();
    let wait = session.bound_entry().wait;
    let buffer = hidraw_buffer(request, tid);
    let (ts, cs, rejected, reply) = choose|
        ts: Seq<MockTransport>,
        cs: Seq<MockClock>,
        rejected: Seq<RazerReport>,
        reply: Result<RazerReport, HidError>,
    | #[trigger]
        session.transacts_by(request, &after, result, ts, cs, rejected, reply);
    let n = rejected.len();
    lemma_mock_run(request, tid, wait, ts, cs, rejected, n);
    lemma_mock_attempt(
        request,
        tid,
        wait,
        n,
        ts.last(),
        cs.last(),
        after.device(),
        after.timer(),
        reply,
    );
    assert(after.device().sent_buffers() =~= ts[0].sent_buffers() + copies(buffer, n + 1));
    assert(after.timer().slept() =~= cs[0].slept() + sleep_schedule(n + 1, wait));
    if n < ts[0].queued().len() {
        assert(ts[0].queued().skip(n as int).skip(1) =~= ts[0].queued().skip(n as int + 1));
    }
}

/// A transaction returns the first acceptable response within five: with
/// `responses` queued, of which exactly the last is acceptable, it returns that
/// one, after as many attempts as there are responses.
pub proof fn law_the_first_acceptable_response_is_returned<'a>(
    session: Session<'a, MockTransport, MockClock>,
    request: RazerReport,
    after: Session<'a, MockTransport, MockClock>,
    result: Result<RazerReport, HidError>,
    responses: Seq<RazerReport>,
)
    requires
        session.transacts(request, &after, result),
        request_fault(request) is None,
        session.device().failing() is None,
        1 <= responses.len() <= MAX_ATTEMPTS,
        responses.len() <= session.device().queued().len(),
        forall|i: int|
            0 <= i < responses.len() ==> (#[trigger] responses[i]).decodes(
                session.device().queued()[i].skip(1),
            ),
        forall|i: int|
            0 <= i < responses.len() - 1 ==> response_fault(request, #[trigger] responses[i])
                is Some,
        response_fault(request, responses.last()) is None,
    ensures
        result == Ok::<RazerReport, HidError>(responses.last()),
        after.attempts() == responses.len(),
        after.echoed() == Some(responses.last().transaction_id),
{
    let tid = session.tid();
    let wait = session.bound_entry().wait;
    let (ts, cs, rejected, reply) = choose|
        ts: Seq<MockTransport>,
        cs: Seq<MockClock>,
        rejected: Seq<RazerReport>,
        reply: Result<RazerReport, HidError>,
    | #[trigger]
        session.transacts_by(request, &after, result, ts, cs, rejected, reply);
    let n = rejected.len();
    let queue = ts[0].queued();
    lemma_mock_run(request, tid, wait, ts, cs, rejected, n);
    assert forall|k: int| 0 <= k < n && k < responses.len() implies rejected[k] == responses[k] by {
        lemma_decoding_is_unique(rejected[k], responses[k], queue[k].skip(1));
    }
    if n >= responses.len() {
        let k = responses.len() - 1;
        assert(rejected[k] == responses[k]);
        assert(response_fault(request, rejected[k]) is Some);
        assert(false);
    }
    lemma_mock_attempt(
        request,
        tid,
        wait,
        n,
        ts.last(),
        cs.last(),
        after.device(),
        after.timer(),
        reply,
    );
    assert(queue.skip(n as int)[0] == queue[n as int]);
    lemma_decoding_is_unique(reply->Ok_0, responses[n as int], queue[n as int].skip(1));
    assert(reply == Ok::<RazerReport, HidError>(responses[n as int]));
    if n < responses.len() - 1 {
        assert(response_fault(request, responses[n as int]) is Some);
        assert(ends_with(request, n, reply, result));
        assert(false);
    }
}

/// With five rejected responses queued, a transaction ends after the fifth with
/// the protocol error of that one.
pub proof fn law_five_rejections_exhaust_the_retries<'a>(
    session: Session<'a, MockTransport, MockClock>,
    request: RazerReport,
    after: Session<'a, MockTransport, MockClock>,
    result: Result<RazerReport, HidError>,
    responses: Seq<RazerReport>,
)
    requires
        session.transacts(request, &after, result),
        request_fault(request) is None,
        session.device().failing() is None,
        responses.len() == MAX_ATTEMPTS,
        responses.len() <= session.device().queued().len(),
        forall|i: int|
            0 <= i < responses.len() ==> (#[trigger] responses[i]).decodes(
                session.device().queued()[i].skip(1),
            ),
        forall|i: int|
            0 <= i < responses.len() ==> response_fault(request, #[trigger] responses[i]) is Some,
    ensures
        result == Err::<RazerReport, HidError>(
            HidError::RetriesExhausted { last: response_fault(request, responses[4])->0 },
        ),
        after.attempts() == MAX_ATTEMPTS,
{
    let tid = session.tid();
    let wait = session.bound_entry().wait;
    let (ts, cs, rejected, reply) = choose|
        ts: Seq<MockTransport>,
        cs: Seq<MockClock>,
        rejected: Seq<RazerReport>,
        reply: Result<RazerReport, HidError>,
    | #[trigger]
        session.transacts_by(request, &after, result, ts, cs, rejected, reply);
    let n = rejected.len();
    let queue = ts[0].queued();
    lemma_mock_run(request, tid, wait, ts, cs, rejected, n);
    lemma_mock_attempt(
        request,
        tid,
        wait,
        n,
        ts.last(),
        cs.last(),
        after.device(),
        after.timer(),
        reply,
    );
    assert(queue.skip(n as int)[0] == queue[n as int]);
    lemma_decoding_is_unique(reply->Ok_0, responses[n as int], queue[n as int].skip(1));
    assert(response_fault(request, responses[n as int]) is Some);
}

/// A SET that fails is not retried: its error is returned after one attempt,
/// with nothing recorded as sent and nothing waited for.
pub proof fn law_a_transport_fault_is_not_retried<'a>(
    session: Session<'a, MockTransport, MockClock>,
    request: RazerReport,
    after: Session<'a, MockTransport, MockClock>,
    result: Result<RazerReport, HidError>,
)
    requires
        session.transacts(request, &after, result),
        request_fault(request) is None,
        session.device().failing() is Some,
    ensures
        result == Err::<RazerReport, HidError>(
            HidError::Io { op: "HIDIOCSFEATURE", errno: session.device().failing()->0 },
        ),
        after.attempts() == 1,
        after.device().sent_buffers() == session.device().sent_buffers(),
        after.device().queued() == session.device().queued(),
        after.timer().slept() == session.timer().slept(),
{
    let tid = session.tid();
    let wait = session.bound_entry().wait;
    let (ts, cs, rejected, reply) = choose|
        ts: Seq<MockTransport>,
        cs: Seq<MockClock>,
        rejected: Seq<RazerReport>,
        reply: Result<RazerReport, HidError>,
    | #[trigger]
        session.transacts_by(request, &after, result, ts, cs, rejected, reply);
    if rejected.len() > 0 {
        let first: Result<RazerReport, HidError> = Ok(rejected[0]);
        assert(attempt_step(request, tid, wait, 0, ts[0], cs[0], ts[1], cs[1], first));
        assert(false);
    }
}

/// Whatever becomes of a transaction, all it sends is the one buffer of its
/// request, at most five times.
pub proof fn law_a_transaction_sends_nothing_else<'a>(
    session: Session<'a, MockTransport, MockClock>,
    request: RazerReport,
    after: Session<'a, MockTransport, MockClock>,
    result: Result<RazerReport, HidError>,
) -> (n: nat)
    requires
        session.transacts(request, &after, result),
    ensures
        n <= MAX_ATTEMPTS,
        after.device().sent_buffers() == session.device().sent_buffers() + copies(
            hidraw_buffer(request, session.tid()),
            n,
        ),
{
    let none = copies(hidraw_buffer(request, session.tid()), 0);
    assert(session.device().sent_buffers() + none =~= session.device().sent_buffers());
    if request_fault(request) is Some {
        law_malformed_requests_never_leave(session, request, after, result);
        0
    } else if session.device().failing() is Some {
        law_a_transport_fault_is_not_retried(session, request, after, result);
        0
    } else {
        law_a_retry_repeats_the_whole_exchange(session, request, after, result);
        after.attempts() as nat
    }
}

/// A session bound to an entry of the device table, with no override, puts that
/// entry's transaction id into every buffer a transaction sends, whatever id
/// the caller left in the request. For every entry of the table it is 0x1F.
pub proof fn law_the_table_decides_the_transaction_id<'a>(
    session: Session<'a, MockTransport, MockClock>,
    request: RazerReport,
    after: Session<'a, MockTransport, MockClock>,
    result: Result<RazerReport, HidError>,
    i: int,
)
    requires
        session.transacts(request, &after, result),
        session.tid() == session.bound_entry().transaction_id,
        table().contains(*session.bound_entry()),
        session.device().sent_buffers().len() <= i < after.device().sent_buffers().len(),
    ensures
        after.device().sent_buffers()[i][2] == session.bound_entry().transaction_id,
        session.bound_entry().transaction_id == 0x1F,
        checksum_valid(after.device().sent_buffers()[i].skip(1)),
        after.tid() == session.tid(),
{
    let tid = session.tid();
    let _ = law_a_transaction_sends_nothing_else(session, request, after, result);
    law_every_buffer_carries_the_session_id(request, tid, tid, tid);
    let k = choose|k: int| 0 <= k < table().len() && table()[k] == *session.bound_entry();
    law_every_entry_agrees_on_the_protocol(k);
}

/// Whether the next answer the device holds is `response`, and it is an
/// acceptable one to a command of the given id in class 0x00.
pub open spec fn answers_next(device: MockTransport, command_id: u8, response: RazerReport) -> bool {
    &&& device.failing() is None
    &&& device.queued().len() > 0
    &&& response.decodes(device.queued()[0].skip(1))
    &&& response.status == Status::Successful || response.status == Status::Busy
    &&& response.remaining_packets == 0
    &&& response.command_class == 0x00
    &&& response.command_id == command_id
    &&& response.data_size <= ARGS_LEN
}

/// A transaction of a command that is answered at once returns the answer.
proof fn lemma_answered_at_once<'a>(
    session: Session<'a, MockTransport, MockClock>,
    request: RazerReport,
    after: Session<'a, MockTransport, MockClock>,
    reply: Result<RazerReport, HidError>,
    response: RazerReport,
)
    requires
        session.transacts(request, &after, reply),
        request_fault(request) is None,
        request.remaining_packets == 0,
        request.command_class == 0x00,
        answers_next(session.device(), request.command_id, response),
    ensures
        reply == Ok::<RazerReport, HidError>(response),
        after.attempts() == 1,
{
    law_the_first_acceptable_response_is_returned(session, request, after, reply, seq![response]);
}

/// The firmware version that is read is the one the device answered.
pub proof fn law_the_firmware_version_is_the_devices<'a>(
    session: Session<'a, MockTransport, MockClock>,
    after: Session<'a, MockTransport, MockClock>,
    result: Result<(u8, u8), HidError>,
    response: RazerReport,
)
    requires
        session.supports(0x02),
        session.reads_firmware_version(&after, result),
        answers_next(session.device(), 0x81, response),
    ensures
        result == Ok::<(u8, u8), HidError>((response.arguments@[0], response.arguments@[1])),
{
    let (request, reply) = choose|request: RazerReport, reply: Result<RazerReport, HidError>|
        {
            &&& request.is_command(0x00, 0x81, 0x02, Seq::empty())
            &&& #[trigger] session.transacts(request, &after, reply)
            &&& result == (match reply {
                Ok(response) => Ok((response.arguments@[0], response.arguments@[1])),
                Err(e) => Err(e),
            })
        };
    lemma_answered_at_once(session, request, after, reply, response);
}

/// The operating mode that is read is the one the device answered.
pub proof fn law_the_device_mode_is_the_devices<'a>(
    session: Session<'a, MockTransport, MockClock>,
    after: Session<'a, MockTransport, MockClock>,
    result: Result<(u8, u8), HidError>,
    response: RazerReport,
)
    requires
        session.supports(0x01),
        session.reads_device_mode(&after, result),
        answers_next(session.device(), 0x84, response),
    ensures
        result == Ok::<(u8, u8), HidError>((response.arguments@[0], response.arguments@[1])),
{
    let (request, reply) = choose|request: RazerReport, reply: Result<RazerReport, HidError>|
        {
            &&& request.is_command(0x00, 0x84, 0x02, Seq::empty())
            &&& #[trigger] session.transacts(request, &after, reply)
            &&& result == (match reply {
                Ok(response) => Ok((response.arguments@[0], response.arguments@[1])),
                Err(e) => Err(e),
            })
        };
    lemma_answered_at_once(session, request, after, reply, response);
}

/// The serial number that is read is the one the device answered.
pub proof fn law_the_serial_is_the_devices<'a>(
    session: Session<'a, MockTransport, MockClock>,
    after: Session<'a, MockTransport, MockClock>,
    result: Result<String, HidError>,
    response: RazerReport,
)
    requires
        session.supports(0x04),
        session.reads_serial(&after, result),
        answers_next(session.device(), 0x82, response),
    ensures
        match result {
            Ok(text) => serial_reading(response, Ok(text)),
            Err(e) => e is Proto && serial_reading(response, Err(e->Proto_0)),
        },
{
    let (request, reply) = choose|request: RazerReport, reply: Result<RazerReport, HidError>|
        {
            &&& request.is_command(0x00, 0x82, 0x16, Seq::empty())
            &&& #[trigger] session.transacts(request, &after, reply)
            &&& match reply {
                Ok(response) => exists|read: Result<String, ProtoError>| #[trigger]
                    serial_reading(response, read) && result == lifted(read),
                Err(e) => result == Err::<String, HidError>(e),
            }
        };
    lemma_answered_at_once(session, request, after, reply, response);
}

/// The buffer that carries a request is report id 0 and the request's own frame
/// with nothing changed but its transaction id.
pub proof fn law_buffers_carry_the_request_unchanged(request: RazerReport, tid: u8, i: int)
    requires
        0 <= i < 90,
    ensures
        hidraw_buffer(request, tid).len() == 91,
        hidraw_buffer(request, tid)[0] == 0,
        hidraw_buffer(request, tid)[i + 1] == (if i == 1 {
            tid
        } else {
            request.frame()[i]
        }),
{
    law_transaction_id_only_touches_byte_one(request, tid);
}

/// A read that brings fewer than 91 bytes is refused with their number, a failed
/// read with its own error, and a whole one is decoded from byte 1 on.
pub proof fn law_only_whole_reads_are_decoded(
    got: Result<usize, HidError>,
    buf: Seq<u8>,
    reply: Result<RazerReport, HidError>,
    i: int,
)
    requires
        buf.len() == 91,
        reads_as(got, buf, reply),
    ensures
        got is Err ==> reply is Err && reply->Err_0 == got->Err_0,
        got is Ok && got->Ok_0 < 91 ==> reply == Err::<RazerReport, HidError>(
            HidError::ShortRead { got: got->Ok_0 },
        ),
        got is Ok && got->Ok_0 >= 91 ==> {
            &&& reply is Ok
            &&& reply->Ok_0.status.byte() == buf[1]
            &&& reply->Ok_0.transaction_id == buf[2]
            &&& reply->Ok_0.remaining_packets == buf[3] * 256 + buf[4]
            &&& reply->Ok_0.data_size == buf[6]
            &&& reply->Ok_0.command_class == buf[7]
            &&& reply->Ok_0.command_id == buf[8]
            &&& 0 <= i < 80 ==> reply->Ok_0.arguments@[i] == buf[9 + i]
        },
{
    if got is Ok && got->Ok_0 >= 91 {
        law_decoding_layout(reply->Ok_0, buf.skip(1), i);
    }
}

/// A send of a well-formed request is one buffer and one wait; a malformed one
/// is nothing at all.
pub proof fn law_a_send_is_one_buffer_and_one_wait(
    request: RazerReport,
    tid: u8,
    wait: Duration,
    t0: MockTransport,
    c0: MockClock,
    t1: MockTransport,
    c1: MockClock,
    result: Result<(), HidError>,
)
    requires
        send_step(request, tid, wait, t0, c0, t1, c1, result),
    ensures
        request.data_size > 80 || request.protocol_type != 0 ==> {
            &&& result is Err
            &&& t1 == t0
            &&& c1 == c0
        },
        request.data_size <= 80 && request.protocol_type == 0 && t0.failing() is None ==> {
            &&& result is Ok
            &&& t1.sent_buffers() == t0.sent_buffers().push(
                seq![0u8] + request.frame().update(1, tid),
            )
            &&& t1.queued() == t0.queued()
            &&& c1.slept() == c0.slept().push(wait)
        },
        request.data_size <= 80 && request.protocol_type == 0 && t0.failing() is Some ==> {
            &&& result is Err
            &&& t1.sent_buffers() == t0.sent_buffers()
            &&& c1 == c0
        },
{
    law_what_may_be_sent(request);
    law_transaction_id_only_touches_byte_one(request, tid);
}

/// One exchange over a device that holds an answer sends one buffer, waits once,
/// takes that answer off the queue, and returns it decoded.
pub proof fn law_an_exchange_returns_the_next_answer(
    request: RazerReport,
    tid: u8,
    wait: Duration,
    t0: MockTransport,
    c0: MockClock,
    t1: MockTransport,
    c1: MockClock,
    reply: Result<RazerReport, HidError>,
    i: int,
)
    requires
        exchange_step(request, tid, wait, t0, c0, t1, c1, reply),
        request.data_size <= 80,
        request.protocol_type == 0,
        t0.failing() is None,
        t0.queued().len() > 0,
        t0.queued()[0].len() == 91,
    ensures
        t1.sent_buffers() == t0.sent_buffers().push(seq![0u8] + request.frame().update(1, tid)),
        t1.queued() == t0.queued().skip(1),
        c1.slept() == c0.slept().push(wait),
        reply is Ok,
        reply->Ok_0.status.byte() == t0.queued()[0][1],
        reply->Ok_0.transaction_id == t0.queued()[0][2],
        reply->Ok_0.command_class == t0.queued()[0][7],
        reply->Ok_0.command_id == t0.queued()[0][8],
        0 <= i < 80 ==> reply->Ok_0.arguments@[i] == t0.queued()[0][9 + i],
{
    law_what_may_be_sent(request);
    law_transaction_id_only_touches_byte_one(request, tid);
    assert(attempt_step(request, tid, wait, 0, t0, c0, t1, c1, reply));
    lemma_mock_attempt(request, tid, wait, 0, t0, c0, t1, c1, reply);
    law_decoding_layout(reply->Ok_0, t0.queued()[0].skip(1), i);
}

/// A device that rejects fewer than five times and then falls silent ends the
/// transaction with a short read, one attempt after the last rejection, and the
/// last rejection is the last response on record.
pub proof fn law_silence_after_rejections_is_a_short_read<'a>(
    session: Session<'a, MockTransport, MockClock>,
    request: RazerReport,
    after: Session<'a, MockTransport, MockClock>,
    result: Result<RazerReport, HidError>,
    responses: Seq<RazerReport>,
)
    requires
        session.transacts(request, &after, result),
        request_fault(request) is None,
        session.device().failing() is None,
        responses.len() < 5,
        responses.len() == session.device().queued().len(),
        forall|i: int|
            0 <= i < responses.len() ==> (#[trigger] responses[i]).decodes(
                session.device().queued()[i].skip(1),
            ) && response_fault(request, responses[i]) is Some,
    ensures
        result == Err::<RazerReport, HidError>(HidError::ShortRead { got: 0 }),
        after.attempts() == responses.len() + 1,
        after.echoed() == (if responses.len() > 0 {
            Some(responses.last().transaction_id)
        } else {
            session.echoed()
        }),
{
    let tid = session.tid();
    let wait = session.bound_entry().wait;
    let (ts, cs, rejected, reply) = choose|
        ts: Seq<MockTransport>,
        cs: Seq<MockClock>,
        rejected: Seq<RazerReport>,
        reply: Result<RazerReport, HidError>,
    | #[trigger]
        session.transacts_by(request, &after, result, ts, cs, rejected, reply);
    let n = rejected.len();
    let queue = ts[0].queued();
    lemma_mock_run(request, tid, wait, ts, cs, rejected, n);
    assert forall|k: int| 0 <= k < n implies rejected[k] == responses[k] by {
        lemma_decoding_is_unique(rejected[k], responses[k], queue[k].skip(1));
    }
    lemma_mock_attempt(
        request,
        tid,
        wait,
        n,
        ts.last(),
        cs.last(),
        after.device(),
        after.timer(),
        reply,
    );
    if n < responses.len() {
        assert(queue.skip(n as int)[0] == queue[n as int]);
        lemma_decoding_is_unique(reply->Ok_0, responses[n as int], queue[n as int].skip(1));
        assert(response_fault(request, responses[n as int]) is Some);
        assert(false);
    }
    assert(rejected =~= responses);
}

/// What a session is told of a device's answers is never that of another
/// request: a transaction that succeeds returns a response with the request's
/// own class, id and `remaining_packets`, and a status byte of 1 or 2.
pub proof fn law_a_transaction_returns_the_answer_to_its_request<
    'a,
    T: FeatureTransport,
    C: Clock,
>(
    session: Session<'a, T, C>,
    request: RazerReport,
    after: Session<'a, T, C>,
    result: Result<RazerReport, HidError>,
)
    requires
        session.transacts(request, &after, result),
        result is Ok,
    ensures
        result->Ok_0.command_class == request.command_class,
        result->Ok_0.command_id == request.command_id,
        result->Ok_0.remaining_packets == request.remaining_packets,
        result->Ok_0.data_size <= 80,
        result->Ok_0.status.byte() == 1 || result->Ok_0.status.byte() == 2,
        1 <= after.attempts() <= 5,
        after.echoed() == Some(result->Ok_0.transaction_id),
        after.tid() == session.tid(),
        after.bound_entry() == session.bound_entry(),
{
    law_attempts_are_bounded(session, request, after, result);
    law_only_an_echo_is_accepted(request, result->Ok_0);
}

}

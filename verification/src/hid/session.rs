//! Binding a device table entry to a transport.
//!
//! # The one place byte 1 is written
//!
//! [`Session::send`] is the only function that assigns the report's
//! `transaction_id`, and it takes the value from
//! [`DeviceEntry::transaction_id`]. No command constructor sets it, and no
//! caller passes it. The checksum covers bytes 2..=87, so a frame with a wrong
//! byte 1 is well-formed as far as the checksum is concerned; with the id
//! sourced from one table there is nowhere for a second, different value to
//! come from.
use vstd::prelude::*;

use crate::devices::capabilities::Capabilities;
use crate::devices::table::{DeviceEntry, PollRateKind};
use crate::hid::error::HidError;
use crate::hid::transport::{FeatureTransport, HIDRAW_BUF_LEN};
use crate::proto::cmd;
use crate::proto::error::ProtoError;
use crate::proto::parse;
use crate::proto::parse::{request_fault, response_fault};
use crate::proto::report::{
    DeviceMode, LedId, PollRate, RazerReport, Rgb, Storage, REPORT_LEN,
};
use crate::time::Duration;

verus! {

/// How many times a transaction is attempted before giving up.
pub const MAX_ATTEMPTS: u32 = 5;

/// The pause between attempts: 10 ms.
pub open spec fn retry_delay() -> Duration {
    Duration { nanos: 10_000_000 }
}

/// Injectable time, so the device wait can be asserted without spending it.
pub trait Clock: Sized {
    /// Whether blocking for `d` may leave the clock as `after`.
    open spec fn sleeps_for(&self, d: Duration, after: &Self) -> bool {
        true
    }

    /// Block for `d`.
    fn sleep(&mut self, d: Duration)
        ensures
            old(self).sleeps_for(d, final(self)),
    ;
}

/// The buffer that carries `report` under transaction id `tid`: report id 0,
/// then the encoded report.
pub open spec fn hidraw_buffer(report: RazerReport, tid: u8) -> Seq<u8> {
    seq![0u8] + (RazerReport { transaction_id: tid, ..report }).frame()
}

/// A buffer of zeros.
pub open spec fn blank_buffer() -> Seq<u8> {
    Seq::new(91, |i: int| 0u8)
}

/// What a read that filled `buf` and returned `got` comes to.
pub open spec fn reads_as(
    got: Result<usize, HidError>,
    buf: Seq<u8>,
    reply: Result<RazerReport, HidError>,
) -> bool {
    match got {
        Err(e) => reply == Err::<RazerReport, HidError>(e),
        Ok(n) => if n < HIDRAW_BUF_LEN {
            reply == Err::<RazerReport, HidError>(HidError::ShortRead { got: n })
        } else {
            reply is Ok && reply->Ok_0.decodes(buf.skip(1))
        },
    }
}

/// Decode what a feature read produced.
///
/// # Errors
///
/// The error of the read itself; [`HidError::ShortRead`] if it produced fewer
/// than [`HIDRAW_BUF_LEN`] bytes.
pub fn decode_reply(got: Result<usize, HidError>, buf: &[u8; HIDRAW_BUF_LEN]) -> (reply: Result<
    RazerReport,
    HidError,
>)
    ensures
        reads_as(got, buf@, reply),
{
    match got {
        Err(e) => Err(e),
        Ok(n) => {
            if n < HIDRAW_BUF_LEN {
                return Err(HidError::ShortRead { got: n });
            }
            let mut report = [0u8; REPORT_LEN];
            let mut i: usize = 0;
            while i < REPORT_LEN
                invariant
                    0 <= i <= REPORT_LEN,
                    report@.take(i as int) =~= buf@.subrange(1, 1 + i),
                decreases REPORT_LEN - i,
            {
                report[i] = buf[1 + i];
                i = i + 1;
            }
            assert(report@.take(90) =~= report@);
            assert(buf@.subrange(1, 91) =~= buf@.skip(1));
            Ok(RazerReport::from_bytes(&report))
        },
    }
}

/// One SET: a malformed request is refused before anything leaves; any other
/// is written once, and the device wait follows a write that succeeded.
pub open spec fn send_step<T: FeatureTransport, C: Clock>(
    request: RazerReport,
    tid: u8,
    wait: Duration,
    t0: T,
    c0: C,
    t1: T,
    c1: C,
    result: Result<(), HidError>,
) -> bool {
    match request_fault(request) {
        Some(e) => {
            &&& t1 == t0
            &&& c1 == c0
            &&& result == Err::<(), HidError>(HidError::Proto(e))
        },
        None => {
            &&& t0.sets(hidraw_buffer(request, tid), &t1, result)
            &&& match result {
                Ok(_) => c0.sleeps_for(wait, &c1),
                Err(_) => c1 == c0,
            }
        },
    }
}

/// One GET into a blank buffer, decoded.
pub open spec fn read_step<T: FeatureTransport>(
    t0: T,
    t1: T,
    reply: Result<RazerReport, HidError>,
) -> bool {
    exists|filled: Seq<u8>, got: Result<usize, HidError>|
        #![trigger t0.gets(blank_buffer(), filled, &t1, got)]
        filled.len() == HIDRAW_BUF_LEN && t0.gets(blank_buffer(), filled, &t1, got) && reads_as(
            got,
            filled,
            reply,
        )
}

/// One SET, and one GET where the SET succeeded.
pub open spec fn exchange_step<T: FeatureTransport, C: Clock>(
    request: RazerReport,
    tid: u8,
    wait: Duration,
    t0: T,
    c0: C,
    t1: T,
    c1: C,
    reply: Result<RazerReport, HidError>,
) -> bool {
    exists|between: T, sent: Result<(), HidError>|
        #![trigger send_step(request, tid, wait, t0, c0, between, c1, sent)]
        send_step(request, tid, wait, t0, c0, between, c1, sent) && match sent {
            Err(e) => t1 == between && reply == Err::<RazerReport, HidError>(e),
            Ok(_) => read_step(between, t1, reply),
        }
}

/// Attempt number `n`, counted from 0: the pause before every attempt but the
/// first, then a whole exchange.
pub open spec fn attempt_step<T: FeatureTransport, C: Clock>(
    request: RazerReport,
    tid: u8,
    wait: Duration,
    n: nat,
    t0: T,
    c0: C,
    t1: T,
    c1: C,
    reply: Result<RazerReport, HidError>,
) -> bool {
    exists|rested: C|
        #![trigger exchange_step(request, tid, wait, t0, rested, t1, c1, reply)]
        (if n == 0 {
            rested == c0
        } else {
            c0.sleeps_for(retry_delay(), &rested)
        }) && exchange_step(request, tid, wait, t0, rested, t1, c1, reply)
}

/// A row of attempts, each answered by a response that does not pass.
///
/// Attempt `i` brings `responses[i]` and takes the transport from `ts[i]` to
/// `ts[i + 1]` and the clock from `cs[i]` to `cs[i + 1]`.
pub open spec fn rejected_run<T: FeatureTransport, C: Clock>(
    request: RazerReport,
    tid: u8,
    wait: Duration,
    ts: Seq<T>,
    cs: Seq<C>,
    responses: Seq<RazerReport>,
) -> bool {
    &&& ts.len() == responses.len() + 1
    &&& cs.len() == responses.len() + 1
    &&& forall|i: int|
        #![trigger responses[i]]
        0 <= i < responses.len() ==> {
            &&& response_fault(request, responses[i]) is Some
            &&& attempt_step(
                request,
                tid,
                wait,
                i as nat,
                ts[i],
                cs[i],
                ts[i + 1],
                cs[i + 1],
                Ok(responses[i]),
            )
        }
}

/// How a transaction ends when attempt `n` brings `reply` after `n` rejected
/// attempts: it ends on the first reply that is not a rejected response, or
/// with the fifth attempt.
pub open spec fn ends_with(
    request: RazerReport,
    n: nat,
    reply: Result<RazerReport, HidError>,
    result: Result<RazerReport, HidError>,
) -> bool {
    match reply {
        Err(e) => result == Err::<RazerReport, HidError>(e),
        Ok(response) => match response_fault(request, response) {
            None => result == Ok::<RazerReport, HidError>(response),
            Some(fault) => n + 1 == MAX_ATTEMPTS && result == Err::<RazerReport, HidError>(
                HidError::RetriesExhausted { last: fault },
            ),
        },
    }
}

/// The transaction id of the last response that arrived in a transaction with
/// the given rejected responses and final reply; `before` is the one known
/// before it.
pub open spec fn echoed_id(
    before: Option<u8>,
    rejected: Seq<RazerReport>,
    reply: Result<RazerReport, HidError>,
) -> Option<u8> {
    match reply {
        Ok(response) => Some(response.transaction_id),
        Err(_) => if rejected.len() > 0 {
            Some(rejected.last().transaction_id)
        } else {
            before
        },
    }
}

/// A device table entry bound to a transport and a clock.
///
/// Borrows both mutably for its lifetime, so read a
/// [`crate::hid::MockTransport`]'s recordings after the session is gone.
pub struct Session<'a, T: FeatureTransport, C: Clock> {
    entry: &'static DeviceEntry,
    transport: &'a mut T,
    clock: &'a mut C,
    transaction_id: u8,
    last_attempts: u32,
    last_response_transaction_id: Option<u8>,
}

impl<'a, T: FeatureTransport, C: Clock> Session<'a, T, C> {
    /// The device table entry the session is bound to.
    pub closed spec fn bound_entry(&self) -> &'static DeviceEntry {
        self.entry
    }

    /// The transaction id stamped into byte 1 of every report.
    pub closed spec fn tid(&self) -> u8 {
        self.transaction_id
    }

    /// Attempts consumed by the most recent transaction.
    pub closed spec fn attempts(&self) -> u32 {
        self.last_attempts
    }

    /// Byte 1 of the last response received by a transaction.
    pub closed spec fn echoed(&self) -> Option<u8> {
        self.last_response_transaction_id
    }

    /// The borrow of the transport.
    pub closed spec fn line(&self) -> &'a mut T {
        self.transport
    }

    /// The borrow of the clock.
    pub closed spec fn ticker(&self) -> &'a mut C {
        self.clock
    }

    /// The transport as it stands.
    pub open spec fn device(&self) -> T {
        *self.line()
    }

    /// The clock as it stands.
    pub open spec fn timer(&self) -> C {
        *self.ticker()
    }

    /// A session that is not used again has given its transport and clock back
    /// as they stand.
    pub proof fn lemma_gives_back(&self)
        requires
            has_resolved(*self),
        ensures
            *final(self.line()) == self.device(),
            *final(self.ticker()) == self.timer(),
    {
    }

    /// Bound to the same entry under the same transaction id.
    pub open spec fn same_binding(&self, after: &Self) -> bool {
        &&& after.bound_entry() == self.bound_entry()
        &&& after.tid() == self.tid()
    }

    /// The two stand the same: the session, its transport and its clock.
    pub open spec fn same_as(&self, other: &Self) -> bool {
        other.idles(self)
    }

    /// Nothing happened: not to the session, the transport or the clock.
    pub open spec fn idles(&self, after: &Self) -> bool {
        &&& self.same_binding(after)
        &&& after.device() == self.device()
        &&& after.timer() == self.timer()
        &&& after.attempts() == self.attempts()
        &&& after.echoed() == self.echoed()
    }

    /// Whether a transaction of `request` may leave the session as `after` and
    /// return `result`: fewer than five attempts are rejected, and one more
    /// ends the transaction.
    pub open spec fn transacts(
        &self,
        request: RazerReport,
        after: &Self,
        result: Result<RazerReport, HidError>,
    ) -> bool {
        &&& self.same_binding(after)
        &&& exists|
            ts: Seq<T>,
            cs: Seq<C>,
            rejected: Seq<RazerReport>,
            reply: Result<RazerReport, HidError>,
        | #[trigger]
            self.transacts_by(request, after, result, ts, cs, rejected, reply)
    }

    /// A transaction by way of the given states, rejected responses and final
    /// reply.
    pub open spec fn transacts_by(
        &self,
        request: RazerReport,
        after: &Self,
        result: Result<RazerReport, HidError>,
        ts: Seq<T>,
        cs: Seq<C>,
        rejected: Seq<RazerReport>,
        reply: Result<RazerReport, HidError>,
    ) -> bool {
        let tid = self.tid();
        let wait = self.bound_entry().wait;
        let n = rejected.len();
        &&& n < MAX_ATTEMPTS
        &&& rejected_run(request, tid, wait, ts, cs, rejected)
        &&& ts[0] == self.device()
        &&& cs[0] == self.timer()
        &&& attempt_step(
            request,
            tid,
            wait,
            n,
            ts.last(),
            cs.last(),
            after.device(),
            after.timer(),
            reply,
        )
        &&& ends_with(request, n, reply, result)
        &&& after.attempts() == n + 1
        &&& after.echoed() == echoed_id(
            self.echoed(),
            rejected,
            reply,
        )
    }

    /// Bind `entry` to `transport`, using `clock` for the mandatory post-write
    /// wait.
    ///
    /// The transaction id defaults to `entry.transaction_id`.
    pub fn new(entry: &'static DeviceEntry, transport: &'a mut T, clock: &'a mut C) -> (session:
        Self)
        ensures
            session.bound_entry() == entry,
            session.device() == *old(transport),
            session.timer() == *old(clock),
            *final(session.line()) == *final(transport),
            *final(session.ticker()) == *final(clock),
            session.tid() == entry.transaction_id,
            session.attempts() == 0,
            session.echoed() is None,
    {
        Session {
            entry,
            transport,
            clock,
            transaction_id: entry.transaction_id,
            last_attempts: 0,
            last_response_transaction_id: None,
        }
    }

    /// Stamp the transaction id, encode, prefix the report id and issue one SET,
    /// then wait `entry.wait`. No read back.
    ///
    /// The report is validated by [`parse::check_request`] before anything is
    /// written: `RazerReport`'s fields are public, and discovering a malformed
    /// frame from the response is too late.
    ///
    /// # Errors
    ///
    /// [`HidError::Proto`] if the report is malformed, returned before any bytes
    /// leave. The error of the transport if the write fails.
    pub fn send(&mut self, request: &RazerReport) -> (result: Result<(), HidError>)
        ensures
            old(self).same_binding(final(self)),
            final(self).attempts() == old(self).attempts(),
            final(self).echoed() == old(self).echoed(),
            send_step(
                *request,
                old(self).tid(),
                old(self).bound_entry().wait,
                old(self).device(),
                old(self).timer(),
                final(self).device(),
                final(self).timer(),
                result,
            ),
            *final(final(self).line()) == *final(old(self).line()),
            *final(final(self).ticker()) == *final(old(self).ticker()),
    {
        match parse::check_request(request) {
            Ok(()) => {},
            Err(e) => return Err(HidError::Proto(e)),
        }
        let mut report = *request;
        // Whatever the caller left in byte 1, the device table wins.
        report.transaction_id = self.transaction_id;

        let bytes = report.to_bytes();
        // The leading byte stays 0, the hidraw report id.
        let mut buf = [0u8; HIDRAW_BUF_LEN];
        let mut i: usize = 0;
        while i < REPORT_LEN
            invariant
                0 <= i <= REPORT_LEN,
                buf@[0] == 0,
                buf@.subrange(1, 1 + i) =~= bytes@.take(i as int),
            decreases REPORT_LEN - i,
        {
            buf[1 + i] = bytes[i];
            i = i + 1;
        }
        assert(bytes@.take(90) =~= bytes@);
        assert(buf@ =~= seq![0u8] + bytes@) by {
            assert forall|k: int| 1 <= k < 91 implies buf@[k] == bytes@[k - 1] by {
                assert(buf@.subrange(1, 91)[k - 1] == bytes@[k - 1]);
            }
        }
        assert(buf@ =~= hidraw_buffer(*request, self.transaction_id));
        let result = self.transport.set_feature(&buf);
        if result.is_ok() {
            self.clock.sleep(self.entry.wait);
        }
        result
    }

    /// [`Session::send`], then one GET, decoded. No validation.
    ///
    /// # Errors
    ///
    /// Whatever [`Session::send`] returns; the error of the transport if the
    /// read fails; [`HidError::ShortRead`] if the device produced fewer than
    /// [`HIDRAW_BUF_LEN`] bytes.
    pub fn transact_raw(&mut self, request: &RazerReport) -> (result: Result<
        RazerReport,
        HidError,
    >)
        ensures
            old(self).same_binding(final(self)),
            final(self).attempts() == old(self).attempts(),
            final(self).echoed() == old(self).echoed(),
            exchange_step(
                *request,
                old(self).tid(),
                old(self).bound_entry().wait,
                old(self).device(),
                old(self).timer(),
                final(self).device(),
                final(self).timer(),
                result,
            ),
            *final(final(self).line()) == *final(old(self).line()),
            *final(final(self).ticker()) == *final(old(self).ticker()),
    {
        match self.send(request) {
            Ok(()) => {},
            Err(e) => return Err(e),
        }
        let ghost between = *self.transport;
        let mut buf = [0u8; HIDRAW_BUF_LEN];
        assert(buf@ =~= blank_buffer());
        let got = self.transport.get_feature(&mut buf);
        let ghost outcome = got;
        let reply = decode_reply(got, &buf);
        assert(between.gets(blank_buffer(), buf@, &*self.transport, outcome));
        assert(read_step(between, *self.transport, reply));
        reply
    }

    /// A full transaction with retries.
    ///
    /// Up to five attempts, 10 ms apart, accepting a response only if
    /// [`parse::check_response`] does. A transport error and a short read are
    /// returned at once: a transport fault is not a protocol fault.
    ///
    /// A retry re-sends the SET: each attempt is a full
    /// [`Session::transact_raw`], so a rejected write is issued again, not merely
    /// read again.
    ///
    /// # Errors
    ///
    /// [`HidError::RetriesExhausted`] carrying the last protocol error, or any
    /// error of the exchange itself, immediately.
    pub fn transact(&mut self, request: &RazerReport) -> (result: Result<RazerReport, HidError>)
        ensures
            old(self).transacts(*request, final(self), result),
            *final(final(self).line()) == *final(old(self).line()),
            *final(final(self).ticker()) == *final(old(self).ticker()),
    {
        let mut last: Option<ProtoError> = None;
        let mut attempt: u32 = 0;
        let ghost tid = self.transaction_id;
        let ghost wait = self.entry.wait;
        let ghost mut ts: Seq<T> = seq![*self.transport];
        let ghost mut cs: Seq<C> = seq![*self.clock];
        let ghost mut rejected: Seq<RazerReport> = Seq::empty();
        while attempt < MAX_ATTEMPTS
            invariant
                attempt <= MAX_ATTEMPTS,
                tid == old(self).tid(),
                wait == old(self).bound_entry().wait,
                old(self).same_binding(self),
                *final(self.transport) == *final(old(self).line()),
                *final(self.clock) == *final(old(self).ticker()),
                ts.len() == attempt + 1,
                cs.len() == attempt + 1,
                rejected.len() == attempt,
                rejected_run(*request, tid, wait, ts, cs, rejected),
                ts[0] == old(self).device(),
                cs[0] == old(self).timer(),
                ts.last() == *self.transport,
                cs.last() == *self.clock,
                self.last_response_transaction_id == (if attempt > 0 {
                    Some(rejected.last().transaction_id)
                } else {
                    old(self).echoed()
                }),
                attempt == MAX_ATTEMPTS ==> last is Some && old(self).transacts(
                    *request,
                    self,
                    Err(HidError::RetriesExhausted { last: last->0 }),
                ),
            decreases MAX_ATTEMPTS - attempt,
        {
            if attempt > 0 {
                self.clock.sleep(Duration { nanos: 10_000_000 });
            }
            let ghost rested = *self.clock;
            self.last_attempts = attempt + 1;
            let reply = self.transact_raw(request);
            let ghost t = *self.transport;
            let ghost c = *self.clock;
            assert(attempt_step(
                *request,
                tid,
                wait,
                attempt as nat,
                ts.last(),
                cs.last(),
                t,
                c,
                reply,
            )) by {
                assert(exchange_step(*request, tid, wait, ts.last(), rested, t, c, reply));
            }
            match reply {
                Err(e) => {
                    let result: Result<RazerReport, HidError> = Err(e);
                    assert(old(self).transacts_by(
                        *request,
                        self,
                        result,
                        ts,
                        cs,
                        rejected,
                        reply,
                    ));
                    return result;
                },
                Ok(response) => {
                    self.last_response_transaction_id = Some(response.transaction_id);
                    match parse::check_response(request, &response) {
                        Ok(()) => {
                            let result: Result<RazerReport, HidError> = Ok(response);
                            assert(old(self).transacts_by(
                                *request,
                                self,
                                result,
                                ts,
                                cs,
                                rejected,
                                reply,
                            ));
                            return result;
                        },
                        Err(e) => {
                            last = Some(e);
                            proof {
                                if attempt + 1 == MAX_ATTEMPTS {
                                    assert(old(self).transacts_by(
                                        *request,
                                        self,
                                        Err(HidError::RetriesExhausted { last: e }),
                                        ts,
                                        cs,
                                        rejected,
                                        reply,
                                    ));
                                }
                                let ghost ts1 = ts.push(t);
                                let ghost cs1 = cs.push(c);
                                let ghost rejected1 = rejected.push(response);
                                assert forall|i: int|
                                    #![trigger rejected1[i]]
                                    0 <= i < rejected1.len() implies {
                                    &&& response_fault(*request, rejected1[i]) is Some
                                    &&& attempt_step(
                                        *request,
                                        tid,
                                        wait,
                                        i as nat,
                                        ts1[i],
                                        cs1[i],
                                        ts1[i + 1],
                                        cs1[i + 1],
                                        Ok(rejected1[i]),
                                    )
                                } by {
                                    if i < rejected.len() {
                                        assert(rejected1[i] == rejected[i]);
                                        assert(ts1[i] == ts[i] && ts1[i + 1] == ts[i + 1]);
                                        assert(cs1[i] == cs[i] && cs1[i + 1] == cs[i + 1]);
                                    } else {
                                        assert(ts1[i] == ts.last() && cs1[i] == cs.last());
                                    }
                                }
                                ts = ts1;
                                cs = cs1;
                                rejected = rejected1;
                            }
                        },
                    }
                },
            }
            attempt = attempt + 1;
        }
        match last {
            Some(e) => Err(HidError::RetriesExhausted { last: e }),
            None => Err(
                HidError::RetriesExhausted {
                    last: ProtoError::Malformed("retry loop ended without a validated response"),
                },
            ),
        }
    }

    // -- typed operations ---------------------------------------------------

    /// Whether setting the operating mode may leave the session as `after` and
    /// return `result`.
    pub open spec fn writes_device_mode(
        &self,
        after: &Self,
        mode: DeviceMode,
        result: Result<(), HidError>,
    ) -> bool {
        &&& !self.supports(0x01) ==> self.refuses(after, "device mode", result)
        &&& self.supports(0x01) ==> exists|
            request: RazerReport,
            reply: Result<RazerReport, HidError>,
        |
            {
                &&& request.is_command(0x00, 0x04, 0x02, seq![mode.byte(), 0x00])
                &&& #[trigger] self.transacts(request, after, reply)
                &&& acknowledges(reply, result)
            }
    }

    /// Whether setting the brightness may leave the session as `after` and return
    /// `result`.
    pub open spec fn writes_brightness(
        &self,
        after: &Self,
        brightness: u8,
        result: Result<(), HidError>,
    ) -> bool {
        &&& (!self.supports(0x08) ==> self.refuses(after, "brightness", result))
        &&& (self.supports(0x08) && self.led_id() is None ==> self.refuses(
            after,
            "this LED id",
            result,
            ))
        &&& (self.supports(0x08) && self.led_id() is Some ==> exists|
            request: RazerReport,
            reply: Result<RazerReport, HidError>,
            |
            {
                &&& request.is_command(
                    0x0F,
                    0x04,
                    0x03,
                    seq![0x01, self.led_id()->0.byte(), brightness],
                )
                &&& #[trigger] self.transacts(request, after, reply)
                &&& acknowledges(reply, result)
            })
    }

    /// Whether reading the brightness may leave the session as `after` and return
    /// `result`.
    pub open spec fn reads_brightness(
        &self,
        after: &Self,
        result: Result<u8, HidError>,
    ) -> bool {
        &&& (!self.supports(0x08) ==> self.refuses(after, "brightness", result))
        &&& (self.supports(0x08) && self.led_id() is None ==> self.refuses(
            after,
            "this LED id",
            result,
            ))
        &&& (self.supports(0x08) && self.led_id() is Some ==> exists|
            request: RazerReport,
            reply: Result<RazerReport, HidError>,
            |
            {
                &&& request.is_command(
                    0x0F,
                    0x84,
                    0x03,
                    seq![0x01, self.led_id()->0.byte()],
                )
                &&& #[trigger] self.transacts(request, after, reply)
                &&& result == (match reply {
                    Ok(response) => Ok(response.arguments@[2]),
                    Err(e) => Err(e),
                })
            })
    }

    /// Whether setting the static effect may leave the session as `after` and return
    /// `result`.
    pub open spec fn writes_static_effect(
        &self,
        after: &Self,
        rgb: Rgb,
        result: Result<(), HidError>,
    ) -> bool {
        &&& (!self.supports(0x10) ==> self.refuses(after, "static effect", result))
        &&& (self.supports(0x10) && self.led_id() is None ==> self.refuses(
            after,
            "this LED id",
            result,
            ))
        &&& (self.supports(0x10) && self.led_id() is Some ==> exists|
            request: RazerReport,
            reply: Result<RazerReport, HidError>,
            |
            {
                &&& request.is_command(
                    0x0F,
                    0x02,
                    0x09,
                    seq![
                        0x01,
                        self.led_id()->0.byte(),
                        0x01,
                        0x00,
                        0x00,
                        0x01,
                        rgb.r,
                        rgb.g,
                        rgb.b,
                    ],
                )
                &&& #[trigger] self.transacts(request, after, reply)
                &&& acknowledges(reply, result)
            })
    }

    /// Whether setting the polling rate may leave the session as `after` and return
    /// `result`.
    pub open spec fn writes_poll_rate(
        &self,
        after: &Self,
        rate: PollRate,
        result: Result<(), HidError>,
    ) -> bool {
        &&& (!self.supports(0x20) ==> self.refuses(after, "poll rate", result))
        &&& (self.supports(0x20) && self.bound_entry().poll_rate_kind == PollRateKind::Legacy
            && rate.legacy() is None ==> {
            &&& self.idles(after)
            &&& result == Err::<(), HidError>(
                HidError::Proto(ProtoError::Malformed("poll rate has no legacy encoding")),
            )
            })
        &&& (self.supports(0x20) && (self.bound_entry().poll_rate_kind == PollRateKind::V2
            || rate.legacy() is Some) ==> exists|
            request: RazerReport,
            reply: Result<RazerReport, HidError>,
            |
            {
                &&& match self.bound_entry().poll_rate_kind {
                    PollRateKind::V2 => request.is_command(
                        0x00,
                        0x40,
                        0x02,
                        seq![0x00, rate.v2()],
                    ),
                    PollRateKind::Legacy => request.is_command(
                        0x00,
                        0x05,
                        0x01,
                        seq![rate.legacy()->0],
                    ),
                }
                &&& #[trigger] self.transacts(request, after, reply)
                &&& acknowledges(reply, result)
            })
    }

    /// Whether reading the polling rate may leave the session as `after` and return
    /// `result`.
    pub open spec fn reads_poll_rate(
        &self,
        after: &Self,
        result: Result<PollRate, HidError>,
    ) -> bool {
        &&& (!self.supports(0x20) ==> self.refuses(after, "poll rate", result))
        &&& (self.supports(0x20) ==> exists|
            request: RazerReport,
            reply: Result<RazerReport, HidError>,
            |
            {
                &&& match self.bound_entry().poll_rate_kind {
                    PollRateKind::V2 => request.is_command(0x00, 0xC0, 0x01, Seq::empty()),
                    PollRateKind::Legacy => request.is_command(
                        0x00,
                        0x85,
                        0x01,
                        Seq::empty(),
                    ),
                }
                &&& #[trigger] self.transacts(request, after, reply)
                &&& result == (match reply {
                    Ok(response) => lifted(
                        poll_rate_in(self.bound_entry().poll_rate_kind, response),
                    ),
                    Err(e) => Err(e),
                })
            })
    }

    /// Whether reading the operating mode may leave the session as `after` and
    /// return `result`.
    pub open spec fn reads_device_mode(
        &self,
        after: &Self,
        result: Result<(u8, u8), HidError>,
    ) -> bool {
        &&& !self.supports(0x01) ==> self.refuses(after, "device mode", result)
        &&& self.supports(0x01) ==> exists|
            request: RazerReport,
            reply: Result<RazerReport, HidError>,
        |
            {
                &&& request.is_command(0x00, 0x84, 0x02, Seq::empty())
                &&& #[trigger] self.transacts(request, after, reply)
                &&& result == (match reply {
                    Ok(response) => Ok((response.arguments@[0], response.arguments@[1])),
                    Err(e) => Err(e),
                })
            }
    }

    /// Whether reading the firmware version may leave the session as `after` and
    /// return `result`.
    pub open spec fn reads_firmware_version(
        &self,
        after: &Self,
        result: Result<(u8, u8), HidError>,
    ) -> bool {
        &&& !self.supports(0x02) ==> self.refuses(after, "firmware version", result)
        &&& self.supports(0x02) ==> exists|
            request: RazerReport,
            reply: Result<RazerReport, HidError>,
        |
            {
                &&& request.is_command(0x00, 0x81, 0x02, Seq::empty())
                &&& #[trigger] self.transacts(request, after, reply)
                &&& result == (match reply {
                    Ok(response) => Ok((response.arguments@[0], response.arguments@[1])),
                    Err(e) => Err(e),
                })
            }
    }

    /// Whether reading the serial number may leave the session as `after` and
    /// return `result`.
    pub open spec fn reads_serial(&self, after: &Self, result: Result<String, HidError>) -> bool {
        &&& !self.supports(0x04) ==> self.refuses(after, "serial", result)
        &&& self.supports(0x04) ==> exists|
            request: RazerReport,
            reply: Result<RazerReport, HidError>,
        |
            {
                &&& request.is_command(0x00, 0x82, 0x16, Seq::empty())
                &&& #[trigger] self.transacts(request, after, reply)
                &&& match reply {
                    Ok(response) => exists|read: Result<String, ProtoError>| #[trigger]
                        parse::serial_reading(response, read) && result == lifted(read),
                    Err(e) => result == Err::<String, HidError>(e),
                }
            }
    }

    /// Set the operating mode.
    ///
    /// # Errors
    ///
    /// [`HidError::Unsupported`] if the device table says the model has no
    /// device-mode command, checked before anything is sent; whatever
    /// [`Session::transact`] returns otherwise.
    pub fn set_device_mode(&mut self, mode: DeviceMode) -> (result: Result<(), HidError>)
        ensures
            old(self).writes_device_mode(final(self), mode, result),
            *final(final(self).line()) == *final(old(self).line()),
            *final(final(self).ticker()) == *final(old(self).ticker()),
    {
        match self.require(Capabilities::device_mode(), "device mode") {
            Ok(()) => {},
            Err(e) => return Err(e),
        }
        let request = cmd::set_device_mode(mode);
        let reply = self.transact(&request);
        assert(old(self).transacts(request, self, reply));
        match reply {
            Ok(_) => Ok(()),
            Err(e) => Err(e),
        }
    }

    /// Read back the operating mode as `(mode, param)`.
    ///
    /// # Errors
    ///
    /// [`HidError::Unsupported`] if unsupported; transport or protocol errors
    /// otherwise.
    pub fn get_device_mode(&mut self) -> (result: Result<(u8, u8), HidError>)
        ensures
            old(self).reads_device_mode(final(self), result),
            *final(final(self).line()) == *final(old(self).line()),
            *final(final(self).ticker()) == *final(old(self).ticker()),
    {
        match self.require(Capabilities::device_mode(), "device mode") {
            Ok(()) => {},
            Err(e) => return Err(e),
        }
        let request = cmd::get_device_mode();
        let reply = self.transact(&request);
        assert(old(self).transacts(request, self, reply));
        match reply {
            Ok(response) => lift(parse::device_mode(&response)),
            Err(e) => Err(e),
        }
    }

    /// Read the firmware version as `(major, minor)`.
    ///
    /// # Errors
    ///
    /// [`HidError::Unsupported`] if unsupported; transport or protocol errors
    /// otherwise.
    pub fn firmware_version(&mut self) -> (result: Result<(u8, u8), HidError>)
        ensures
            old(self).reads_firmware_version(final(self), result),
            *final(final(self).line()) == *final(old(self).line()),
            *final(final(self).ticker()) == *final(old(self).ticker()),
    {
        match self.require(Capabilities::firmware_version(), "firmware version") {
            Ok(()) => {},
            Err(e) => return Err(e),
        }
        let request = cmd::get_firmware_version();
        let reply = self.transact(&request);
        assert(old(self).transacts(request, self, reply));
        match reply {
            Ok(response) => lift(parse::firmware_version(&response)),
            Err(e) => Err(e),
        }
    }

    /// Read the device serial number.
    ///
    /// # Errors
    ///
    /// [`HidError::Unsupported`] if unsupported; transport or protocol errors
    /// otherwise.
    pub fn serial(&mut self) -> (result: Result<String, HidError>)
        ensures
            old(self).reads_serial(final(self), result),
            *final(final(self).line()) == *final(old(self).line()),
            *final(final(self).ticker()) == *final(old(self).ticker()),
    {
        match self.require(Capabilities::serial(), "serial") {
            Ok(()) => {},
            Err(e) => return Err(e),
        }
        let request = cmd::get_serial();
        let reply = self.transact(&request);
        assert(old(self).transacts(request, self, reply));
        match reply {
            Ok(response) => {
                let read = parse::serial(&response);
                assert(parse::serial_reading(response, read));
                lift(read)
            },
            Err(e) => Err(e),
        }
    }

    /// Set the backlight brightness.
    ///
    /// The LED id comes from the device table.
    ///
    /// # Errors
    ///
    /// [`HidError::Unsupported`] if unsupported; transport or protocol errors
    /// otherwise.
    pub fn set_brightness(&mut self, brightness: u8) -> (result: Result<(), HidError>)
        ensures
            old(self).writes_brightness(final(self), brightness, result),
            *final(final(self).line()) == *final(old(self).line()),
            *final(final(self).ticker()) == *final(old(self).ticker()),
    {
        match self.require(Capabilities::brightness(), "brightness") {
            Ok(()) => {},
            Err(e) => return Err(e),
        }
        let led: LedId = match self.led() {
            Ok(led) => led,
            Err(e) => return Err(e),
        };
        let request = cmd::set_brightness(Storage::VarStore, led, brightness);
        let reply = self.transact(&request);
        assert(old(self).transacts(request, self, reply));
        match reply {
            Ok(_) => Ok(()),
            Err(e) => Err(e),
        }
    }

    /// Read back the backlight brightness.
    ///
    /// # Errors
    ///
    /// [`HidError::Unsupported`] if unsupported; transport or protocol errors
    /// otherwise.
    pub fn get_brightness(&mut self) -> (result: Result<u8, HidError>)
        ensures
            old(self).reads_brightness(final(self), result),
            *final(final(self).line()) == *final(old(self).line()),
            *final(final(self).ticker()) == *final(old(self).ticker()),
    {
        match self.require(Capabilities::brightness(), "brightness") {
            Ok(()) => {},
            Err(e) => return Err(e),
        }
        let led: LedId = match self.led() {
            Ok(led) => led,
            Err(e) => return Err(e),
        };
        let request = cmd::get_brightness(Storage::VarStore, led);
        let reply = self.transact(&request);
        assert(old(self).transacts(request, self, reply));
        match reply {
            Ok(response) => lift(parse::brightness(&response)),
            Err(e) => Err(e),
        }
    }

    /// Set the whole device to one static colour.
    ///
    /// # Errors
    ///
    /// [`HidError::Unsupported`] if unsupported; transport or protocol errors
    /// otherwise.
    pub fn set_static_effect(&mut self, rgb: Rgb) -> (result: Result<(), HidError>)
        ensures
            old(self).writes_static_effect(final(self), rgb, result),
            *final(final(self).line()) == *final(old(self).line()),
            *final(final(self).ticker()) == *final(old(self).ticker()),
    {
        match self.require(Capabilities::static_effect(), "static effect") {
            Ok(()) => {},
            Err(e) => return Err(e),
        }
        let led: LedId = match self.led() {
            Ok(led) => led,
            Err(e) => return Err(e),
        };
        let request = cmd::set_static_effect(Storage::VarStore, led, rgb);
        let reply = self.transact(&request);
        assert(old(self).transacts(request, self, reply));
        match reply {
            Ok(_) => Ok(()),
            Err(e) => Err(e),
        }
    }

    /// Set the polling rate, using whichever command family the device speaks.
    ///
    /// The choice comes from `entry.poll_rate_kind`: the two encodings are not
    /// interchangeable.
    ///
    /// # Errors
    ///
    /// [`HidError::Unsupported`] if the device has no poll-rate command;
    /// [`HidError::Proto`] if the rate has no encoding in this device's family
    /// (legacy covers only 1000/500/125 Hz); transport or protocol errors
    /// otherwise.
    pub fn set_poll_rate(&mut self, rate: PollRate) -> (result: Result<(), HidError>)
        ensures
            old(self).writes_poll_rate(final(self), rate, result),
            *final(final(self).line()) == *final(old(self).line()),
            *final(final(self).ticker()) == *final(old(self).ticker()),
    {
        match self.require(Capabilities::poll_rate(), "poll rate") {
            Ok(()) => {},
            Err(e) => return Err(e),
        }
        let request: RazerReport = match self.entry.poll_rate_kind {
            PollRateKind::V2 => cmd::set_poll_rate_v2(rate, 0x00),
            PollRateKind::Legacy => match cmd::set_poll_rate_legacy(rate) {
                Ok(request) => request,
                Err(e) => return Err(HidError::Proto(e)),
            },
        };
        let reply = self.transact(&request);
        assert(old(self).transacts(request, self, reply));
        match reply {
            Ok(_) => Ok(()),
            Err(e) => Err(e),
        }
    }

    /// Read back the polling rate.
    ///
    /// The two families put the code in different argument slots.
    ///
    /// # Errors
    ///
    /// [`HidError::Unsupported`] if unsupported; transport or protocol errors
    /// otherwise.
    pub fn get_poll_rate(&mut self) -> (result: Result<PollRate, HidError>)
        ensures
            old(self).reads_poll_rate(final(self), result),
            *final(final(self).line()) == *final(old(self).line()),
            *final(final(self).ticker()) == *final(old(self).ticker()),
    {
        match self.require(Capabilities::poll_rate(), "poll rate") {
            Ok(()) => {},
            Err(e) => return Err(e),
        }
        match self.entry.poll_rate_kind {
            PollRateKind::V2 => {
                let request = cmd::get_poll_rate_v2();
                let reply = self.transact(&request);
                assert(old(self).transacts(request, self, reply));
                match reply {
                    Ok(response) => lift(parse::poll_rate_v2(&response)),
                    Err(e) => Err(e),
                }
            },
            PollRateKind::Legacy => {
                let request = cmd::get_poll_rate_legacy();
                let reply = self.transact(&request);
                assert(old(self).transacts(request, self, reply));
                match reply {
                    Ok(response) => lift(parse::poll_rate_legacy(&response)),
                    Err(e) => Err(e),
                }
            },
        }
    }

    // -- accessors ----------------------------------------------------------

    /// Attempts consumed by the most recent [`Session::transact`].
    ///
    /// `1` means it succeeded first time. Anything higher means the device
    /// rejected a well-formed report.
    #[must_use]
    pub fn last_attempts(&self) -> (attempts: u32)
        ensures
            attempts == self.attempts(),
    {
        self.last_attempts
    }

    /// Byte 1 of the last response received by [`Session::transact`], if there
    /// has been one.
    ///
    /// Recorded rather than enforced: a mismatch with
    /// [`Session::transaction_id`] is a diagnostic signal, not grounds to reject
    /// a frame real hardware sent.
    #[must_use]
    pub fn last_response_transaction_id(&self) -> (tid: Option<u8>)
        ensures
            tid == self.echoed(),
    {
        self.last_response_transaction_id
    }

    /// Override the transaction id for this session.
    ///
    /// A diagnostic escape hatch: nothing on a normal path calls it.
    #[must_use]
    pub fn with_transaction_id_override(self, tid: u8) -> (session: Self)
        ensures
            session.bound_entry() == self.bound_entry(),
            session.device() == self.device(),
            session.timer() == self.timer(),
            *final(session.line()) == *final(self.line()),
            *final(session.ticker()) == *final(self.ticker()),
            session.tid() == tid,
            session.attempts() == self.attempts(),
            session.echoed() == self.echoed(),
    {
        Session {
            entry: self.entry,
            transport: self.transport,
            clock: self.clock,
            transaction_id: tid,
            last_attempts: self.last_attempts,
            last_response_transaction_id: self.last_response_transaction_id,
        }
    }

    /// The device table entry this session is bound to.
    pub fn entry(&self) -> (entry: &'static DeviceEntry)
        ensures
            entry == self.bound_entry(),
    {
        self.entry
    }

    /// The transaction id this session stamps into byte 1.
    pub fn transaction_id(&self) -> (tid: u8)
        ensures
            tid == self.tid(),
    {
        self.transaction_id
    }

    // -- internals ----------------------------------------------------------

    /// Whether the device table grants the capability flag.
    pub open spec fn supports(&self, flag: u32) -> bool {
        self.bound_entry().capabilities.has(Capabilities(flag))
    }

    /// Whether an operation was refused as unsupported, with nothing sent.
    pub open spec fn refuses<R>(
        &self,
        after: &Self,
        what: &'static str,
        result: Result<R, HidError>,
    ) -> bool {
        &&& self.idles(after)
        &&& result == Err::<R, HidError>(HidError::Unsupported { pid: self.bound_entry().pid, what })
    }

    /// The device's default LED, where the id is one the commands know.
    pub open spec fn led_id(&self) -> Option<LedId> {
        if self.bound_entry().default_led == 0x00 {
            Some(LedId::Zero)
        } else if self.bound_entry().default_led == 0x01 {
            Some(LedId::ScrollWheel)
        } else if self.bound_entry().default_led == 0x04 {
            Some(LedId::Logo)
        } else if self.bound_entry().default_led == 0x05 {
            Some(LedId::Backlight)
        } else {
            None
        }
    }

    /// Capability guard. Fires before a single byte leaves.
    fn require(&self, cap: Capabilities, what: &'static str) -> (result: Result<(), HidError>)
        ensures
            match result {
                Ok(_) => self.supports(cap.0),
                Err(e) => !self.supports(cap.0) && e == (HidError::Unsupported {
                    pid: self.entry.pid,
                    what,
                }),
            },
    {
        if self.entry.capabilities.contains(cap) {
            Ok(())
        } else {
            Err(HidError::Unsupported { pid: self.entry.pid, what })
        }
    }

    /// The device's default LED id, as the typed form the command constructors
    /// take.
    fn led(&self) -> (result: Result<LedId, HidError>)
        ensures
            match result {
                Ok(led) => self.led_id() == Some(led),
                Err(e) => self.led_id() is None && e == (HidError::Unsupported {
                    pid: self.entry.pid,
                    what: "this LED id",
                }),
            },
    {
        match self.entry.default_led {
            0x00 => Ok(LedId::Zero),
            0x01 => Ok(LedId::ScrollWheel),
            0x04 => Ok(LedId::Logo),
            0x05 => Ok(LedId::Backlight),
            _ => Err(HidError::Unsupported { pid: self.entry.pid, what: "this LED id" }),
        }
    }
}

/// Whether `result` is that of a command whose response carries nothing.
pub open spec fn acknowledges(
    reply: Result<RazerReport, HidError>,
    result: Result<(), HidError>,
) -> bool {
    match reply {
        Ok(_) => result is Ok,
        Err(e) => result == Err::<(), HidError>(e),
    }
}

/// A parse result as a result of the session.
pub open spec fn lifted<R>(read: Result<R, ProtoError>) -> Result<R, HidError> {
    match read {
        Ok(value) => Ok(value),
        Err(e) => Err(HidError::Proto(e)),
    }
}

/// Wraps the error of a parse.
fn lift<R>(read: Result<R, ProtoError>) -> (result: Result<R, HidError>)
    ensures
        result == lifted(read),
{
    match read {
        Ok(value) => Ok(value),
        Err(e) => Err(HidError::from(e)),
    }
}

/// The polling rate in `response`, read the way the device's command family
/// writes it.
pub open spec fn poll_rate_in(kind: PollRateKind, response: RazerReport) -> Result<
    PollRate,
    ProtoError,
> {
    match kind {
        PollRateKind::V2 => parse::v2_reading(response.arguments@[1]),
        PollRateKind::Legacy => parse::legacy_reading(response.arguments@[0]),
    }
}

}

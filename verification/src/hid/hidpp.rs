use vstd::prelude::*;

use crate::strings::{push_str, push_upper_hex, spec_upper_hex, string_from};

verus! {

/// Failure of one HID++ request, or of a named read built on top of one.
#[derive(Debug, PartialEq, Eq)]
pub enum Error {
    Io,
    Timeout,
    Malformed(&'static str),
    Protocol { legacy: bool, code: u8 },
    Read { operation: &'static str, source: Box<Error> },
}

impl Clone for Error {
    fn clone(&self) -> (r: Self)
        ensures
            r == *self,
        decreases self,
    {
        match self {
            Error::Io => Error::Io,
            Error::Timeout => Error::Timeout,
            Error::Malformed(reason) => Error::Malformed(reason),
            Error::Protocol { legacy, code } => Error::Protocol { legacy: *legacy, code: *code },
            Error::Read { operation, source } => {
                let inner: &Error = source;
                Error::Read { operation, source: Box::new(inner.clone()) }
            },
        }
    }
}

/// Timeouts and the HID++ Busy codes (1.x `0x07`, 2.x `0x08`) may be retried by a read.
pub open spec fn is_retryable(e: Error) -> bool {
    match e {
        Error::Timeout => true,
        Error::Protocol { legacy, code } => (legacy && code == 0x07) || (!legacy && code == 0x08),
        _ => false,
    }
}

impl Error {
    pub fn in_read(self, operation: &'static str) -> (r: Self)
        ensures
            r == (Error::Read { operation, source: Box::new(self) }),
    {
        Error::Read { operation, source: Box::new(self) }
    }

    pub fn is_retryable_read(&self) -> (r: bool)
        ensures
            r == is_retryable(*self),
    {
        match self {
            Error::Timeout => true,
            Error::Protocol { legacy, code } => (*legacy && *code == 0x07) || (!*legacy && *code
                == 0x08),
            _ => false,
        }
    }
}

/// How an error reads to a person.
pub open spec fn spec_describe(e: Error) -> Seq<char>
    decreases e,
{
    match e {
        Error::Io => "HID I/O unavailable (access denied, disconnected, or busy)"@,
        Error::Timeout => "No matching reply before timeout (sleeping or unavailable)"@,
        Error::Malformed(reason) => "Malformed response: "@ + reason@,
        Error::Protocol { legacy, code } => "HID++ "@ + (if legacy {
            "1.x"@
        } else {
            "2.x"@
        }) + " error 0x"@ + spec_upper_hex(code as nat, 2),
        Error::Read { operation, source } => operation@ + ": "@ + spec_describe(*source),
    }
}

impl Error {
    /// The message shown for this error.
    pub fn describe(&self) -> (r: String)
        ensures
            r@ == spec_describe(*self),
        decreases self,
    {
        match self {
            Error::Io => string_from("HID I/O unavailable (access denied, disconnected, or busy)"),
            Error::Timeout => string_from("No matching reply before timeout (sleeping or unavailable)"),
            Error::Malformed(reason) => {
                let mut out = string_from("Malformed response: ");
                push_str(&mut out, reason);
                out
            },
            Error::Protocol { legacy, code } => {
                let mut out = string_from("HID++ ");
                push_str(&mut out, if *legacy { "1.x" } else { "2.x" });
                push_str(&mut out, " error 0x");
                push_upper_hex(&mut out, *code as u64, 2);
                out
            },
            Error::Read { operation, source } => {
                let inner: &Error = source;
                let mut out = string_from(operation);
                push_str(&mut out, ": ");
                let detail = inner.describe();
                push_str(&mut out, detail.as_str());
                out
            },
        }
    }
}

/// One physical request as the transport saw it, with the reply it produced.
pub struct Call {
    pub device: u8,
    pub feature: u8,
    pub function: u8,
    pub parameters: Seq<u8>,
    pub reply: Result<Seq<u8>, Error>,
}

pub open spec fn reply_view(r: Result<Vec<u8>, Error>) -> Result<Seq<u8>, Error> {
    match r {
        Ok(v) => Ok(v@),
        Err(e) => Err(e),
    }
}

/// A HID++ transport: sends one request and returns its reply.
pub trait Exchange {
    fn exchange(&mut self, device: u8, feature: u8, function: u8, parameters: &[u8]) -> Result<
        Vec<u8>,
        Error,
    >;
}

/// A transport together with the record of every request sent through it.
pub struct Recorded<E> {
    pub inner: E,
    log: Ghost<Seq<Call>>,
}

impl<E: Exchange> Recorded<E> {
    pub fn new(inner: E) -> (r: Self)
        ensures
            r.calls() == Seq::<Call>::empty(),
    {
        Recorded { inner, log: Ghost(Seq::empty()) }
    }

    /// Every request sent so far through this transport, oldest first, with its reply.
    pub closed spec fn calls(&self) -> Seq<Call> {
        self.log@
    }

    pub fn exchange(&mut self, device: u8, feature: u8, function: u8, parameters: &[u8]) -> (r: Result<
        Vec<u8>,
        Error,
    >)
        ensures
            final(self).calls() == old(self).calls().push(
                Call { device, feature, function, parameters: parameters@, reply: reply_view(r) },
            ),
    {
        let r = self.inner.exchange(device, feature, function, parameters);
        proof {
            self.log@ = self.log@.push(
                Call { device, feature, function, parameters: parameters@, reply: reply_view(r) },
            );
        }
        r
    }
}

/// Length of a HID++ report with the given report ID, or 0 for an unsupported ID.
pub open spec fn report_length(id: u8) -> int {
    if id == 0x10 {
        7
    } else if id == 0x11 {
        20
    } else {
        0
    }
}

pub struct PacketView {
    pub report: u8,
    pub device: u8,
    pub feature: u8,
    pub function: u8,
    pub parameters: Seq<u8>,
}

#[derive(Debug, PartialEq, Eq)]
pub struct Packet {
    pub report: u8,
    pub device: u8,
    pub feature: u8,
    pub function: u8,
    pub parameters: Vec<u8>,
}

impl View for Packet {
    type V = PacketView;

    open spec fn view(&self) -> PacketView {
        PacketView {
            report: self.report,
            device: self.device,
            feature: self.feature,
            function: self.function,
            parameters: self.parameters@,
        }
    }
}

/// What `Packet::parse` gives for a byte slice: exact 7-byte `0x10` or 20-byte `0x11` reports.
pub open spec fn spec_packet_parse(bytes: Seq<u8>) -> Result<PacketView, Error> {
    if bytes.len() == 0 || report_length(bytes[0]) == 0 {
        Err(Error::Malformed("unsupported report ID"))
    } else if bytes.len() != report_length(bytes[0]) {
        Err(Error::Malformed("incorrect report length"))
    } else {
        Ok(
            PacketView {
                report: bytes[0],
                device: bytes[1],
                feature: bytes[2],
                function: bytes[3],
                parameters: bytes.subrange(4, bytes.len() as int),
            },
        )
    }
}

pub open spec fn packet_result_view(r: Result<Packet, Error>) -> Result<PacketView, Error> {
    match r {
        Ok(p) => Ok(p@),
        Err(e) => Err(e),
    }
}

/// Whether `packet` answers `request` (report, device, feature, function/software ID, ...),
/// and with which reply. HID++ error reports (`0x8F` on short reports, `0xFF`) answer a
/// request only when they name its feature and function/software ID byte.
pub open spec fn spec_response_to(packet: PacketView, request: Seq<u8>) -> Option<
    Result<Seq<u8>, Error>,
> {
    if request.len() < 4 || packet.device != request[1] {
        None
    } else if (packet.report == 0x10 && packet.feature == 0x8f) || packet.feature == 0xff {
        if packet.function != request[2] || packet.parameters.len() == 0
            || packet.parameters[0] != request[3] {
            None
        } else if packet.parameters.len() >= 2 {
            Some(Err(Error::Protocol { legacy: packet.feature == 0x8f, code: packet.parameters[1] }))
        } else {
            Some(Err(Error::Malformed("truncated protocol error")))
        }
    } else if packet.feature == request[2] && packet.function == request[3] {
        Some(Ok(packet.parameters))
    } else {
        None
    }
}

pub open spec fn option_reply_view(r: Option<Result<Vec<u8>, Error>>) -> Option<
    Result<Seq<u8>, Error>,
> {
    match r {
        Some(x) => Some(reply_view(x)),
        None => None,
    }
}

/// Copies a byte range into a fresh vector.
pub fn copy_range(bytes: &[u8], start: usize, end: usize) -> (r: Vec<u8>)
    requires
        start <= end <= bytes@.len(),
    ensures
        r@ == bytes@.subrange(start as int, end as int),
{
    let mut out: Vec<u8> = Vec::new();
    let mut i = start;
    while i < end
        invariant
            start <= i <= end <= bytes@.len(),
            out@ == bytes@.subrange(start as int, i as int),
        decreases end - i,
    {
        out.push(bytes[i]);
        i = i + 1;
    }
    out
}

impl Packet {
    pub fn parse(bytes: &[u8]) -> (r: Result<Self, Error>)
        ensures
            packet_result_view(r) == spec_packet_parse(bytes@),
    {
        let length: usize = if bytes.len() == 0 {
            return Err(Error::Malformed("unsupported report ID"));
        } else if bytes[0] == 0x10 {
            7
        } else if bytes[0] == 0x11 {
            20
        } else {
            return Err(Error::Malformed("unsupported report ID"));
        };
        if bytes.len() != length {
            return Err(Error::Malformed("incorrect report length"));
        }
        Ok(
            Packet {
                report: bytes[0],
                device: bytes[1],
                feature: bytes[2],
                function: bytes[3],
                parameters: copy_range(bytes, 4, length),
            },
        )
    }

    /// Ignores other devices, notifications, and other clients' replies.
    pub fn response_to(&self, request: &[u8]) -> (r: Option<Result<Vec<u8>, Error>>)
        ensures
            option_reply_view(r) == spec_response_to(self@, request@),
    {
        if request.len() < 4 || self.device != request[1] {
            return None;
        }
        if (self.report == 0x10 && self.feature == 0x8f) || self.feature == 0xff {
            if self.function != request[2] || self.parameters.len() == 0 || self.parameters[0]
                != request[3] {
                return None;
            }
            if self.parameters.len() >= 2 {
                return Some(
                    Err(Error::Protocol { legacy: self.feature == 0x8f, code: self.parameters[1] }),
                );
            }
            return Some(Err(Error::Malformed("truncated protocol error")));
        }
        if self.feature == request[2] && self.function == request[3] {
            let n = self.parameters.len();
            let copy = copy_range(self.parameters.as_slice(), 0, n);
            assert(copy@ =~= self.parameters@);
            Some(Ok(copy))
        } else {
            None
        }
    }
}

#[derive(Debug, Clone, Copy, PartialEq, Eq, Structural)]
pub struct Feature {
    pub id: u16,
    pub index: u8,
    pub flags: u8,
    pub version: u8,
}

/// An IRoot `getFeature` reply: index 0 means unsupported (except for the root itself),
/// index `0xFF` is reserved.
pub open spec fn spec_feature_parse(id: u16, data: Seq<u8>) -> Result<Option<Feature>, Error> {
    if data.len() < 3 {
        Err(Error::Malformed("truncated feature response"))
    } else if data[0] == 0xff {
        Err(Error::Malformed("reserved feature index"))
    } else if data[0] == 0 && id != 0 {
        Ok(None)
    } else {
        Ok(Some(Feature { id, index: data[0], flags: data[1], version: data[2] }))
    }
}

impl Feature {
    pub fn parse(id: u16, data: &[u8]) -> (r: Result<Option<Self>, Error>)
        ensures
            r == spec_feature_parse(id, data@),
    {
        if data.len() < 3 {
            return Err(Error::Malformed("truncated feature response"));
        }
        if data[0] == 0xff {
            return Err(Error::Malformed("reserved feature index"));
        }
        if data[0] == 0 && id != 0 {
            return Ok(None);
        }
        Ok(Some(Feature { id, index: data[0], flags: data[1], version: data[2] }))
    }
}

#[derive(Debug, Clone, Copy, PartialEq, Eq, Structural)]
pub enum Protocol {
    Legacy,
    Feature { major: u8, minor: u8 },
}


pub open spec fn sends(c: Call, device: u8, feature: u8, function: u8, parameters: Seq<u8>) -> bool {
    &&& c.device == device
    &&& c.feature == feature
    &&& c.function == function
    &&& c.parameters == parameters
}

pub open spec fn is_retryable_reply(r: Result<Seq<u8>, Error>) -> bool {
    match r {
        Err(e) => is_retryable(e),
        Ok(_) => false,
    }
}

/// `after` is `before` followed by zero or more further calls.
pub open spec fn extends(before: Seq<Call>, after: Seq<Call>) -> bool {
    before.len() <= after.len() && after.take(before.len() as int) == before
}

/// The calls appended to `before` to reach `after`.
pub open spec fn new_calls(before: Seq<Call>, after: Seq<Call>) -> Seq<Call> {
    after.skip(before.len() as int)
}

/// Number of physical attempts that one read-only exchange makes when `log` starts with it:
/// a second attempt follows exactly when the first reply is a retryable error.
pub open spec fn read_only_len(log: Seq<Call>) -> int {
    if log.len() > 0 && is_retryable_reply(log[0].reply) {
        READ_ONLY_ATTEMPTS as int
    } else {
        1
    }
}

/// `log` starts with one complete read-only exchange of the given request.
pub open spec fn read_only_step(
    log: Seq<Call>,
    device: u8,
    feature: u8,
    function: u8,
    parameters: Seq<u8>,
) -> bool {
    &&& read_only_len(log) <= log.len()
    &&& forall|i: int|
        0 <= i < read_only_len(log) ==> sends(#[trigger] log[i], device, feature, function, parameters)
}

/// `log` is exactly one read-only exchange of the given request.
pub open spec fn one_read(
    log: Seq<Call>,
    device: u8,
    feature: u8,
    function: u8,
    parameters: Seq<u8>,
) -> bool {
    read_only_step(log, device, feature, function, parameters) && log.len() == read_only_len(log)
}

/// The reply that the read-only exchange at the head of `log` returns: that of its last attempt.
pub open spec fn read_only_reply(log: Seq<Call>) -> Result<Seq<u8>, Error> {
    log[read_only_len(log) - 1].reply
}

pub proof fn lemma_extends_concat(a: Seq<Call>, b: Seq<Call>, c: Seq<Call>)
    requires
        extends(a, b),
        extends(b, c),
    ensures
        extends(a, c),
        new_calls(a, c) == new_calls(a, b) + new_calls(b, c),
{
    assert(c.take(a.len() as int) =~= b.take(a.len() as int));
    assert(new_calls(a, c) =~= new_calls(a, b) + new_calls(b, c));
}

pub proof fn lemma_extends_refl(a: Seq<Call>)
    ensures
        extends(a, a),
        new_calls(a, a) == Seq::<Call>::empty(),
{
    assert(a.take(a.len() as int) =~= a);
    assert(new_calls(a, a) =~= Seq::<Call>::empty());
}

/// A complete read-only exchange followed by anything else keeps its length and reply.
pub proof fn lemma_read_then(
    a: Seq<Call>,
    b: Seq<Call>,
    device: u8,
    feature: u8,
    function: u8,
    parameters: Seq<u8>,
)
    requires
        one_read(a, device, feature, function, parameters),
    ensures
        read_only_step(a + b, device, feature, function, parameters),
        read_only_len(a + b) == a.len(),
        read_only_reply(a + b) == read_only_reply(a),
        (a + b).skip(a.len() as int) == b,
{
    assert((a + b)[0] == a[0]);
    assert forall|i: int| 0 <= i < read_only_len(a + b) implies sends(
        #[trigger] (a + b)[i],
        device,
        feature,
        function,
        parameters,
    ) by {
        assert((a + b)[i] == a[i]);
    }
    assert((a + b)[read_only_len(a) - 1] == a[read_only_len(a) - 1]);
    assert((a + b).skip(a.len() as int) =~= b);
}

/// Two read-only exchanges of parameterless functions `first` then `second`, the second made
/// only when the first succeeded.
pub open spec fn paired_read_shape(log: Seq<Call>, device: u8, index: u8, first: u8, second: u8) -> bool {
    &&& read_only_step(log, device, index, first, Seq::<u8>::empty())
    &&& match read_only_reply(log) {
        Err(_) => log.len() == read_only_len(log),
        Ok(_) => one_read(
            log.skip(read_only_len(log)),
            device,
            index,
            second,
            Seq::<u8>::empty(),
        ),
    }
}

/// Both replies of a `paired_read_shape` log, or the first failure tagged with its operation.
pub open spec fn paired_read_result(
    log: Seq<Call>,
    first_operation: &'static str,
    second_operation: &'static str,
) -> Result<(Seq<u8>, Seq<u8>), Error> {
    match read_only_reply(log) {
        Err(e) => Err(Error::Read { operation: first_operation, source: Box::new(e) }),
        Ok(a) => match read_only_reply(log.skip(read_only_len(log))) {
            Err(e) => Err(Error::Read { operation: second_operation, source: Box::new(e) }),
            Ok(b) => Ok((a, b)),
        },
    }
}

/// No request in `log` calls function 3, the DPI setter's function number; every other
/// request this library sends is a read.
pub open spec fn no_writes(log: Seq<Call>) -> bool {
    forall|i: int| 0 <= i < log.len() ==> (#[trigger] log[i]).function != 3
}

/// A read-only exchange of a function other than 3, followed by calls without writes, has none.
pub proof fn lemma_step_no_writes(
    log: Seq<Call>,
    device: u8,
    feature: u8,
    function: u8,
    parameters: Seq<u8>,
)
    requires
        read_only_step(log, device, feature, function, parameters),
        function != 3,
        no_writes(log.skip(read_only_len(log))),
    ensures
        no_writes(log),
{
    let n = read_only_len(log);
    assert forall|i: int| 0 <= i < log.len() implies (#[trigger] log[i]).function != 3 by {
        if i >= n {
            assert(log[i] == log.skip(n)[i - n]);
        } else {
            assert(sends(log[i], device, feature, function, parameters));
        }
    }
}

pub proof fn lemma_no_writes_concat(a: Seq<Call>, b: Seq<Call>)
    requires
        no_writes(a),
        no_writes(b),
    ensures
        no_writes(a + b),
{
    assert forall|i: int| 0 <= i < (a + b).len() implies (#[trigger] (a + b)[i]).function != 3 by {
        if i < a.len() {
            assert((a + b)[i] == a[i]);
        } else {
            assert((a + b)[i] == b[i - a.len()]);
        }
    }
}

pub open spec fn all_zero_bytes(bytes: Seq<u8>) -> bool {
    forall|i: int| 0 <= i < bytes.len() ==> #[trigger] bytes[i] == 0
}

pub const READ_ONLY_ATTEMPTS: u8 = 2;

/// Retry only an idempotent, read-only request. Set/write/reset operations must
/// call `Exchange::exchange` directly so a timeout can never duplicate a write.
pub fn read_only_exchange<E: Exchange>(
    transport: &mut Recorded<E>,
    device: u8,
    feature: u8,
    function: u8,
    parameters: &[u8],
) -> (r: Result<Vec<u8>, Error>)
    ensures
        extends(old(transport).calls(), final(transport).calls()),
        one_read(
            new_calls(old(transport).calls(), final(transport).calls()),
            device,
            feature,
            function,
            parameters@,
        ),
        reply_view(r) == read_only_reply(new_calls(old(transport).calls(), final(transport).calls())),
{
    let ghost before = transport.calls();
    let first = transport.exchange(device, feature, function, parameters);
    let ghost middle = transport.calls();
    assert(new_calls(before, middle) =~= seq![middle.last()]);
    assert(middle.take(before.len() as int) =~= before);
    match first {
        Err(error) => {
            if error.is_retryable_read() {
                let second = transport.exchange(device, feature, function, parameters);
                assert(new_calls(before, transport.calls()) =~= seq![
                    middle.last(),
                    transport.calls().last(),
                ]);
                assert(transport.calls().take(before.len() as int) =~= before);
                second
            } else {
                Err(error)
            }
        },
        Ok(data) => Ok(data),
    }
}

pub const PING: u8 = 0xa5;

/// A root ping's outcome: HID++ 1.x answers with error 1; 2.x echoes the ping with major >= 2.
pub open spec fn spec_probe(reply: Result<Seq<u8>, Error>) -> Result<Protocol, Error> {
    match reply {
        Ok(data) => if data.len() >= 3 && data[2] == PING && data[0] >= 2 {
            Ok(Protocol::Feature { major: data[0], minor: data[1] })
        } else {
            Err(Error::Malformed("invalid protocol version or ping echo"))
        },
        Err(e) => if e == (Error::Protocol { legacy: true, code: 1 }) {
            Ok(Protocol::Legacy)
        } else {
            Err(e)
        },
    }
}

pub fn probe<E: Exchange>(transport: &mut Recorded<E>, device: u8) -> (r: Result<Protocol, Error>)
    ensures
        extends(old(transport).calls(), final(transport).calls()),
        one_read(
            new_calls(old(transport).calls(), final(transport).calls()),
            device,
            0,
            1,
            seq![0u8, 0u8, PING],
        ),
        r == spec_probe(read_only_reply(new_calls(old(transport).calls(), final(transport).calls()))),
{
    let ping: [u8; 3] = [0, 0, PING];
    assert(ping@ =~= seq![0u8, 0u8, PING]);
    match read_only_exchange(transport, device, 0, 1, &ping) {
        Err(e) => match e {
            Error::Protocol { legacy: true, code: 1 } => Ok(Protocol::Legacy),
            other => Err(other),
        },
        Ok(data) => {
            if data.len() >= 3 && data[2] == PING && data[0] >= 2 {
                Ok(Protocol::Feature { major: data[0], minor: data[1] })
            } else {
                Err(Error::Malformed("invalid protocol version or ping echo"))
            }
        },
    }
}

/// The IRoot `getFeature` request parameters: the feature ID, big-endian.
pub open spec fn feature_id_bytes(id: u16) -> Seq<u8> {
    seq![(id / 256) as u8, (id % 256) as u8]
}

pub open spec fn spec_discover(id: u16, reply: Result<Seq<u8>, Error>) -> Result<Option<Feature>, Error> {
    match reply {
        Ok(data) => spec_feature_parse(id, data),
        Err(e) => Err(e),
    }
}

pub fn discover<E: Exchange>(transport: &mut Recorded<E>, device: u8, id: u16) -> (r: Result<Option<Feature>, Error>)
    ensures
        extends(old(transport).calls(), final(transport).calls()),
        one_read(
            new_calls(old(transport).calls(), final(transport).calls()),
            device,
            0,
            0,
            feature_id_bytes(id),
        ),
        r == spec_discover(id, read_only_reply(new_calls(old(transport).calls(), final(transport).calls()))),
{
    let request: [u8; 2] = [(id / 256) as u8, (id % 256) as u8];
    assert(request@ =~= feature_id_bytes(id));
    let data = read_only_exchange(transport, device, 0, 0, &request)?;
    Feature::parse(id, data.as_slice())
}

} // verus!

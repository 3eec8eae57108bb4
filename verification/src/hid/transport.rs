use vstd::prelude::*;

use super::hidpp::{
    copy_range, option_reply_view, packet_result_view, report_length, spec_packet_parse,
    spec_response_to, Error, Packet, PacketView,
};

verus! {

/// One physical request gets one bounded response window, in milliseconds.
/// Retries belong only in the explicit read-only layer.
pub const RESPONSE_TIMEOUT_MS: u64 = 750;

/// At most this many input reports are examined while waiting for one reply.
pub const MAX_REPORTS: usize = 128;

/// Largest input report that `parse_input` accepts.
pub const MAX_INPUT_LENGTH: usize = 64;

pub open spec fn all_zero(bytes: Seq<u8>) -> bool {
    forall|i: int| 0 <= i < bytes.len() ==> #[trigger] bytes[i] == 0
}

/// Windows can pad shorter reports to the collection's maximum input size.
/// Only zero padding up to 64 bytes is accepted; the protocol parser itself remains strict.
pub open spec fn spec_parse_input(bytes: Seq<u8>) -> Result<PacketView, Error> {
    if bytes.len() == 0 || report_length(bytes[0]) == 0 {
        Err(Error::Malformed("unsupported report ID"))
    } else if bytes.len() < report_length(bytes[0]) || bytes.len() > MAX_INPUT_LENGTH
        || !all_zero(bytes.subrange(report_length(bytes[0]), bytes.len() as int)) {
        Err(Error::Malformed("invalid HID report padding or length"))
    } else {
        spec_packet_parse(bytes.subrange(0, report_length(bytes[0])))
    }
}

pub fn parse_input(bytes: &[u8]) -> (r: Result<Packet, Error>)
    ensures
        packet_result_view(r) == spec_parse_input(bytes@),
{
    let size: usize = if bytes.len() == 0 {
        return Err(Error::Malformed("unsupported report ID"));
    } else if bytes[0] == 0x10 {
        7
    } else if bytes[0] == 0x11 {
        20
    } else {
        return Err(Error::Malformed("unsupported report ID"));
    };
    assert(size == report_length(bytes@[0]));
    if bytes.len() < size || bytes.len() > MAX_INPUT_LENGTH {
        return Err(Error::Malformed("invalid HID report padding or length"));
    }
    let mut i = size;
    while i < bytes.len()
        invariant
            size <= i <= bytes@.len() <= MAX_INPUT_LENGTH,
            bytes@.len() > 0,
            size == report_length(bytes@[0]),
            size == 7 || size == 20,
            all_zero(bytes@.subrange(size as int, i as int)),
        decreases bytes@.len() - i,
    {
        if bytes[i] != 0 {
            assert(bytes@.subrange(size as int, bytes@.len() as int)[i - size] == bytes@[i as int]);
            assert(!all_zero(bytes@.subrange(size as int, bytes@.len() as int)));
            return Err(Error::Malformed("invalid HID report padding or length"));
        }
        assert(all_zero(bytes@.subrange(size as int, i + 1))) by {
            assert forall|j: int| 0 <= j < i + 1 - size implies #[trigger] bytes@.subrange(
                size as int,
                i + 1,
            )[j] == 0 by {
                if j < i - size {
                    assert(bytes@.subrange(size as int, i + 1)[j] == bytes@.subrange(
                        size as int,
                        i as int,
                    )[j]);
                }
            }
        }
        i = i + 1;
    }
    assert(bytes@.subrange(size as int, i as int) =~= bytes@.subrange(size as int, bytes@.len() as int));
    let exact = copy_range(bytes, 0, size);
    Packet::parse(exact.as_slice())
}

/// The report ID used for requests: long `0x11` reports for usage 2, short `0x10` otherwise.
pub fn report_id(long_reports: bool) -> (r: u8)
    ensures
        r == (if long_reports { 0x11u8 } else { 0x10u8 }),
{
    if long_reports {
        0x11
    } else {
        0x10
    }
}

/// Software IDs rotate through `1..=15`; zero is never used.
pub fn next_software_id(current: u8) -> (r: u8)
    ensures
        r == current % 15 + 1,
        1 <= r <= 15,
{
    current % 15 + 1
}

/// The bytes of one request: report ID, device index, feature index, function in the high
/// nibble and software ID in the low nibble, the parameters, then zero padding.
pub open spec fn spec_request(
    report: u8,
    device: u8,
    feature: u8,
    function: u8,
    software_id: u8,
    parameters: Seq<u8>,
) -> Seq<u8> {
    seq![report, device, feature, (function * 16 + software_id) as u8] + parameters + Seq::new(
        (report_length(report) - 4 - parameters.len()) as nat,
        |i: int| 0u8,
    )
}

/// The request length that `encode_request` uses: 20 bytes for `0x11`, 7 otherwise.
pub open spec fn request_length(report: u8) -> int {
    if report == 0x11 {
        20
    } else {
        7
    }
}

pub open spec fn request_fits(report: u8, function: u8, parameters: Seq<u8>) -> bool {
    parameters.len() <= request_length(report) - 4 && function <= 15
}

pub fn encode_request(
    report: u8,
    device: u8,
    feature: u8,
    function: u8,
    software_id: u8,
    parameters: &[u8],
) -> (r: Result<Vec<u8>, Error>)
    requires
        report == 0x10 || report == 0x11,
        software_id <= 15,
    ensures
        match r {
            Ok(request) => request_fits(report, function, parameters@) && request@ == spec_request(
                report,
                device,
                feature,
                function,
                software_id,
                parameters@,
            ),
            Err(e) => !request_fits(report, function, parameters@) && e == Error::Malformed(
                "invalid request",
            ),
        },
{
    let size: usize = if report == 0x11 {
        20
    } else {
        7
    };
    if parameters.len() > size - 4 || function > 15 {
        return Err(Error::Malformed("invalid request"));
    }
    let mut request: Vec<u8> = Vec::new();
    request.push(report);
    request.push(device);
    request.push(feature);
    request.push(function * 16 + software_id);
    let mut i: usize = 0;
    while i < parameters.len()
        invariant
            i <= parameters@.len(),
            request@ == seq![report, device, feature, (function * 16 + software_id) as u8]
                + parameters@.subrange(0, i as int),
        decreases parameters@.len() - i,
    {
        request.push(parameters[i]);
        i = i + 1;
    }
    assert(parameters@.subrange(0, parameters@.len() as int) =~= parameters@);
    let ghost prefix = request@;
    while request.len() < size
        invariant
            prefix.len() <= request@.len() <= size,
            request@.subrange(0, prefix.len() as int) == prefix,
            forall|j: int| prefix.len() <= j < request@.len() ==> #[trigger] request@[j] == 0,
        decreases size - request@.len(),
    {
        request.push(0);
    }
    assert(request@ =~= spec_request(report, device, feature, function, software_id, parameters@));
    Ok(request)
}

/// A write is accepted when the backend reports synchronous success (0) or the whole report.
pub fn write_accepted(written: usize, request_length: usize) -> (r: bool)
    ensures
        r == (written == 0 || written >= request_length),
{
    written == 0 || written >= request_length
}

/// Milliseconds to wait in the next read, from the time left before the deadline.
pub fn read_timeout_millis(remaining_ms: u128) -> (r: i32)
    ensures
        r as int == if remaining_ms < 1 {
            1
        } else if remaining_ms > RESPONSE_TIMEOUT_MS {
            RESPONSE_TIMEOUT_MS as int
        } else {
            remaining_ms as int
        },
{
    if remaining_ms < 1 {
        1
    } else if remaining_ms > RESPONSE_TIMEOUT_MS as u128 {
        RESPONSE_TIMEOUT_MS as i32
    } else {
        remaining_ms as i32
    }
}

/// What one input report means for a pending request: `None` when it is unrelated traffic,
/// otherwise the reply. Non-HID++ reports are ignored; a malformed report is an error only
/// when its device, feature and function/software ID bytes match the request.
pub open spec fn spec_classify_report(request: Seq<u8>, report: Seq<u8>) -> Option<
    Result<Seq<u8>, Error>,
> {
    if report.len() == 0 || !(report[0] == 0x10 || report[0] == 0x11) {
        None
    } else {
        match spec_parse_input(report) {
            Ok(packet) => spec_response_to(packet, request),
            Err(e) => if report.len() >= 4 && report.subrange(1, 4) == request.subrange(1, 4) {
                Some(Err(e))
            } else {
                None
            },
        }
    }
}

pub fn classify_report(request: &[u8], report: &[u8]) -> (r: Option<Result<Vec<u8>, Error>>)
    requires
        request@.len() >= 4,
    ensures
        option_reply_view(r) == spec_classify_report(request@, report@),
{
    if report.len() == 0 || !(report[0] == 0x10 || report[0] == 0x11) {
        return None;
    }
    match parse_input(report) {
        Ok(packet) => packet.response_to(request),
        Err(error) => {
            if report.len() >= 4 && report[1] == request[1] && report[2] == request[2] && report[3]
                == request[3] {
                assert(report@.subrange(1, 4) =~= request@.subrange(1, 4));
                Some(Err(error))
            } else {
                assert(report@.len() >= 4 ==> report@.subrange(1, 4)[0] == report@[1]
                    && report@.subrange(1, 4)[1] == report@[2] && report@.subrange(1, 4)[2]
                    == report@[3]);
                None
            }
        },
    }
}

} // verus!

use vstd::prelude::*;

use super::features::{battery, dpi};
use super::hidpp::{
    self, extends, feature_id_bytes, lemma_extends_concat, lemma_extends_refl, lemma_read_then,
    new_calls, no_writes, one_read, read_only_len, read_only_reply, read_only_step, Call, Error,
    Exchange, Feature, Protocol, Recorded,
};
use crate::strings::{
    chars_of, push_char, push_decimal, push_hex, push_str, push_upper_hex, spec_decimal, spec_hex,
    spec_upper_hex, str_eq, string_from,
};

verus! {

#[derive(Debug)]
pub struct FeatureResult {
    pub id: u16,
    pub result: Result<Option<Feature>, Error>,
}

#[derive(Debug)]
pub struct Endpoint {
    pub index: u8,
    pub opaque_id: String,
    pub protocol: Result<Protocol, Error>,
    pub features: Vec<FeatureResult>,
    pub battery: Option<Result<battery::Battery, Error>>,
    pub dpi: Option<Result<Vec<dpi::SensorDpi>, Error>>,
}

#[derive(Debug)]
pub struct Interface {
    pub number: usize,
    pub vid: u16,
    pub pid: u16,
    pub product: String,
    pub manufacturer: String,
    pub interface_number: i32,
    pub usage_page: u16,
    pub usage: u16,
    pub candidate: bool,
    pub descriptor_bytes: Option<usize>,
    pub open_error: Option<Error>,
    pub endpoints: Vec<Endpoint>,
}

/// Retain endpoint identity within its HID interface. Never merge devices by PID/name.
/// Slots are bounded probes, not claims about pairing or receiver type.
pub const PROBE_INDICES: [u8; 7] = [0xff, 1, 2, 3, 4, 5, 6];

/// Logitech's USB vendor ID; only its interfaces are enumerated.
pub const LOGITECH_VID: u16 = 0x046d;

#[derive(Debug, Clone, Copy, Default)]
pub struct ScanOptions {
    pub read_battery: bool,
    pub read_dpi: bool,
}

/// HID++ candidates are vendor page `0xFF00` interfaces with usage 1 (short) or 2 (long).
pub open spec fn spec_is_candidate(usage_page: u16, usage: u16) -> bool {
    usage_page == 0xff00 && (usage == 1 || usage == 2)
}

pub fn is_candidate(usage_page: u16, usage: u16) -> (r: bool)
    ensures
        r == spec_is_candidate(usage_page, usage),
{
    usage_page == 0xff00 && (usage == 1 || usage == 2)
}

pub open spec fn is_feature_protocol(protocol: Result<Protocol, Error>) -> bool {
    protocol matches Ok(Protocol::Feature { .. })
}

/// Index of the first entry at or after `i` for feature `id`, or the number of entries.
pub open spec fn first_with_id(features: Seq<FeatureResult>, id: u16, i: int) -> int
    decreases features.len() - i,
{
    if i < 0 || i >= features.len() {
        features.len() as int
    } else if features[i].id == id {
        i
    } else {
        first_with_id(features, id, i + 1)
    }
}

proof fn lemma_first_with_id_skip(features: Seq<FeatureResult>, id: u16, i: int)
    requires
        0 <= i <= features.len(),
        forall|j: int| 0 <= j < i ==> features[j].id != id,
    ensures
        first_with_id(features, id, 0) == first_with_id(features, id, i),
    decreases i,
{
    if i > 0 {
        lemma_first_with_id_skip(features, id, i - 1);
    }
}

proof fn lemma_first_with_id_bounds(features: Seq<FeatureResult>, id: u16, i: int)
    requires
        0 <= i <= features.len(),
    ensures
        i <= first_with_id(features, id, i) <= features.len(),
        first_with_id(features, id, i) < features.len() ==> features[first_with_id(
            features,
            id,
            i,
        )].id == id,
    decreases features.len() - i,
{
    if i < features.len() && features[i].id != id {
        lemma_first_with_id_bounds(features, id, i + 1);
    }
}

/// The first entry for feature `id`, if any.
pub fn find_feature(features: &[FeatureResult], id: u16) -> (r: Option<usize>)
    ensures
        match r {
            Some(i) => i == first_with_id(features@, id, 0) && i < features@.len(),
            None => first_with_id(features@, id, 0) == features@.len(),
        },
{
    let mut i: usize = 0;
    while i < features.len()
        invariant
            i <= features@.len(),
            forall|j: int| 0 <= j < i ==> features@[j].id != id,
        decreases features@.len() - i,
    {
        if features[i].id == id {
            proof {
                lemma_first_with_id_skip(features@, id, i as int);
            }
            return Some(i);
        }
        i = i + 1;
    }
    proof {
        lemma_first_with_id_skip(features@, id, i as int);
    }
    None
}

pub open spec fn reports_supported(features: Seq<FeatureResult>, id: u16) -> bool {
    exists|j: int| 0 <= j < features.len() && features[j].id == id && (
    #[trigger] features[j]).result matches Ok(Some(_))
}

pub open spec fn reports_unsupported(features: Seq<FeatureResult>, id: u16) -> bool {
    exists|j: int| 0 <= j < features.len() && features[j].id == id && (
    #[trigger] features[j]).result matches Ok(None)
}

/// "Supported" when any of `ids` was found; "Unsupported (queried features)" only when every
/// one of them was queried and reported absent; "Unknown" otherwise.
pub open spec fn spec_capability(features: Seq<FeatureResult>, ids: Seq<u16>) -> &'static str {
    if exists|i: int| 0 <= i < ids.len() && reports_supported(features, #[trigger] ids[i]) {
        "Supported"
    } else if forall|i: int| 0 <= i < ids.len() ==> reports_unsupported(features, #[trigger] ids[i]) {
        "Unsupported (queried features)"
    } else {
        "Unknown"
    }
}

pub fn has_result(features: &[FeatureResult], id: u16, found: bool) -> (r: bool)
    ensures
        r == if found {
            reports_supported(features@, id)
        } else {
            reports_unsupported(features@, id)
        },
{
    let mut j: usize = 0;
    while j < features.len()
        invariant
            j <= features@.len(),
            forall|k: int|
                0 <= k < j ==> !(features@[k].id == id && if found {
                    (#[trigger] features@[k]).result matches Ok(Some(_))
                } else {
                    features@[k].result matches Ok(None)
                }),
        decreases features@.len() - j,
    {
        let hit = match &features[j].result {
            Ok(Some(_)) => found,
            Ok(None) => !found,
            Err(_) => false,
        };
        if features[j].id == id && hit {
            assert(features@[j as int] == features[j as int]);
            return true;
        }
        j = j + 1;
    }
    false
}

pub fn capability(endpoint: &Endpoint, ids: &[u16]) -> (r: &'static str)
    ensures
        r == spec_capability(endpoint.features@, ids@),
{
    let features = endpoint.features.as_slice();
    let mut i: usize = 0;
    while i < ids.len()
        invariant
            features@ == endpoint.features@,
            i <= ids@.len(),
            forall|k: int| 0 <= k < i ==> !reports_supported(features@, #[trigger] ids@[k]),
        decreases ids@.len() - i,
    {
        if has_result(features, ids[i], true) {
            return "Supported";
        }
        i = i + 1;
    }
    let mut i: usize = 0;
    while i < ids.len()
        invariant
            features@ == endpoint.features@,
            i <= ids@.len(),
            forall|k: int| 0 <= k < ids@.len() ==> !reports_supported(features@, #[trigger] ids@[k]),
            forall|k: int| 0 <= k < i ==> reports_unsupported(features@, #[trigger] ids@[k]),
        decreases ids@.len() - i,
    {
        if !has_result(features, ids[i], false) {
            return "Unknown";
        }
        i = i + 1;
    }
    "Unsupported (queried features)"
}

/// Control characters (Unicode general category Cc).
pub open spec fn is_control(c: char) -> bool {
    c <= '\u{1f}' || ('\u{7f}' <= c && c <= '\u{9f}')
}

pub open spec fn visible_chars(s: Seq<char>) -> Seq<char>
    decreases s.len(),
{
    if s.len() == 0 {
        s
    } else if is_control(s.last()) {
        visible_chars(s.drop_last())
    } else {
        visible_chars(s.drop_last()).push(s.last())
    }
}

pub const MAX_LABEL_CHARS: usize = 96;

/// The first 96 non-control characters.
pub open spec fn spec_safe_label(s: Seq<char>) -> Seq<char> {
    let visible = visible_chars(s);
    if visible.len() <= MAX_LABEL_CHARS {
        visible
    } else {
        visible.take(MAX_LABEL_CHARS as int)
    }
}

proof fn lemma_visible_chars(s: Seq<char>)
    ensures
        visible_chars(s).len() <= s.len(),
        forall|i: int| 0 <= i < visible_chars(s).len() ==> !is_control(#[trigger] visible_chars(s)[i]),
    decreases s.len(),
{
    if s.len() > 0 {
        lemma_visible_chars(s.drop_last());
    }
}

/// HID metadata is untrusted; avoid control/terminal escape injection and huge output.
pub fn safe_label(value: &str) -> (r: String)
    ensures
        r@ == spec_safe_label(value@),
        r@.len() <= MAX_LABEL_CHARS,
        forall|i: int| 0 <= i < r@.len() ==> !is_control(#[trigger] r@[i]),
{
    proof {
        lemma_visible_chars(value@);
    }
    let chars = chars_of(value);
    let mut out = String::new();
    let mut count: usize = 0;
    let mut i: usize = 0;
    while i < chars.len()
        invariant
            chars@ == value@,
            i <= chars@.len(),
            count == out@.len(),
            out@ == spec_safe_label(chars@.take(i as int)),
        decreases chars@.len() - i,
    {
        let c = chars[i];
        assert(chars@.take(i + 1).drop_last() =~= chars@.take(i as int));
        if !(c <= '\u{1f}' || ('\u{7f}' <= c && c <= '\u{9f}')) && count < MAX_LABEL_CHARS {
            push_char(&mut out, c);
            count = count + 1;
        }
        i = i + 1;
        assert(out@ =~= spec_safe_label(chars@.take(i as int)));
    }
    assert(chars@.take(chars@.len() as int) =~= chars@);
    out
}

pub const FNV_PRIME: u64 = 0x100000001b3;

pub open spec fn fnv_mix(value: u64, byte: u8) -> u64 {
    (value ^ (byte as u64)).wrapping_mul(FNV_PRIME)
}

pub open spec fn hash_bytes(value: u64, bytes: Seq<u8>) -> u64
    decreases bytes.len(),
{
    if bytes.len() == 0 {
        value
    } else {
        fnv_mix(hash_bytes(value, bytes.drop_last()), bytes.last())
    }
}

/// FNV-1a over each chunk, each chunk closed by mixing in `0xFF`.
pub open spec fn hash_chunks(seed: u64, chunks: Seq<Seq<u8>>) -> u64
    decreases chunks.len(),
{
    if chunks.len() == 0 {
        seed
    } else {
        fnv_mix(hash_bytes(hash_chunks(seed, chunks.drop_last()), chunks.last()), 0xff)
    }
}

pub open spec fn le16(v: u16) -> Seq<u8> {
    seq![(v % 256) as u8, (v / 256) as u8]
}

pub open spec fn le32(v: u32) -> Seq<u8> {
    seq![(v % 256) as u8, ((v / 256) % 256) as u8, ((v / 65536) % 256) as u8, (v / 16777216) as u8]
}

/// The identity fields that an endpoint ID is derived from, in order.
pub open spec fn id_chunks(
    path: Seq<u8>,
    vid: u16,
    pid: u16,
    interface_number: i32,
    usage_page: u16,
    usage: u16,
    device_index: u8,
) -> Seq<Seq<u8>> {
    seq![
        path,
        le16(vid),
        le16(pid),
        le32(interface_number as u32),
        le16(usage_page),
        le16(usage),
        seq![device_index],
    ]
}

pub const FIRST_SEED: u64 = 0xcbf29ce484222325;

pub const SECOND_SEED: u64 = 0x84222325cbf29ce4;

/// Two 64-bit hashes of the identity fields, as 32 lower-case hexadecimal digits.
pub open spec fn spec_opaque_device_id(
    path: Seq<u8>,
    vid: u16,
    pid: u16,
    interface_number: i32,
    usage_page: u16,
    usage: u16,
    device_index: u8,
) -> Seq<char> {
    let chunks = id_chunks(path, vid, pid, interface_number, usage_page, usage, device_index);
    spec_hex(hash_chunks(FIRST_SEED, chunks) as nat, 16) + spec_hex(
        hash_chunks(SECOND_SEED, chunks) as nat,
        16,
    )
}

fn mix(value: u64, byte: u8) -> (r: u64)
    ensures
        r == fnv_mix(value, byte),
{
    (value ^ (byte as u64)).wrapping_mul(FNV_PRIME)
}

fn hash_chunk(value: u64, bytes: &[u8]) -> (r: u64)
    ensures
        r == fnv_mix(hash_bytes(value, bytes@), 0xff),
{
    let mut h = value;
    let mut i: usize = 0;
    while i < bytes.len()
        invariant
            i <= bytes@.len(),
            h == hash_bytes(value, bytes@.take(i as int)),
        decreases bytes@.len() - i,
    {
        assert(bytes@.take(i + 1).drop_last() =~= bytes@.take(i as int));
        h = mix(h, bytes[i]);
        i = i + 1;
    }
    assert(bytes@.take(bytes@.len() as int) =~= bytes@);
    mix(h, 0xff)
}

fn le16_bytes(v: u16) -> (r: [u8; 2])
    ensures
        r@ == le16(v),
{
    let r: [u8; 2] = [(v % 256) as u8, (v / 256) as u8];
    assert(r@ =~= le16(v));
    r
}

fn le32_bytes(v: u32) -> (r: [u8; 4])
    ensures
        r@ == le32(v),
{
    let r: [u8; 4] = [(v % 256) as u8, ((v / 256) % 256) as u8, ((v / 65536) % 256) as u8, (v
        / 16777216) as u8];
    assert(r@ =~= le32(v));
    r
}

proof fn lemma_hash_chunks_step(seed: u64, chunks: Seq<Seq<u8>>, k: int)
    requires
        0 <= k < chunks.len(),
    ensures
        hash_chunks(seed, chunks.take(k + 1)) == fnv_mix(
            hash_bytes(hash_chunks(seed, chunks.take(k)), chunks[k]),
            0xff,
        ),
{
    assert(chunks.take(k + 1).drop_last() =~= chunks.take(k));
}

fn hash_identity(
    seed: u64,
    path: &[u8],
    vid: u16,
    pid: u16,
    interface_number: i32,
    usage_page: u16,
    usage: u16,
    device_index: u8,
) -> (r: u64)
    ensures
        r == hash_chunks(
            seed,
            id_chunks(path@, vid, pid, interface_number, usage_page, usage, device_index),
        ),
{
    let ghost chunks = id_chunks(path@, vid, pid, interface_number, usage_page, usage, device_index);
    let vid_bytes = le16_bytes(vid);
    let pid_bytes = le16_bytes(pid);
    let interface_bytes = le32_bytes(interface_number as u32);
    let page_bytes = le16_bytes(usage_page);
    let usage_bytes = le16_bytes(usage);
    let index_bytes: [u8; 1] = [device_index];
    assert(index_bytes@ =~= seq![device_index]);
    proof {
        assert(chunks.take(0) =~= Seq::<Seq<u8>>::empty());
        lemma_hash_chunks_step(seed, chunks, 0);
    }
    let h = hash_chunk(seed, path);
    proof { lemma_hash_chunks_step(seed, chunks, 1); }
    let h = hash_chunk(h, &vid_bytes);
    proof { lemma_hash_chunks_step(seed, chunks, 2); }
    let h = hash_chunk(h, &pid_bytes);
    proof { lemma_hash_chunks_step(seed, chunks, 3); }
    let h = hash_chunk(h, &interface_bytes);
    proof { lemma_hash_chunks_step(seed, chunks, 4); }
    let h = hash_chunk(h, &page_bytes);
    proof { lemma_hash_chunks_step(seed, chunks, 5); }
    let h = hash_chunk(h, &usage_bytes);
    proof { lemma_hash_chunks_step(seed, chunks, 6); }
    let h = hash_chunk(h, &index_bytes);
    assert(chunks.take(7) =~= chunks);
    h
}

/// A derived, stable identifier for one endpoint of one HID interface. The raw path never
/// leaves this function.
proof fn lemma_hex_len(n: nat, width: nat)
    ensures
        spec_hex(n, width).len() == width,
    decreases width,
{
    if width > 0 {
        lemma_hex_len(n / 16, (width - 1) as nat);
    }
}

pub fn opaque_device_id(
    path: &[u8],
    vid: u16,
    pid: u16,
    interface_number: i32,
    usage_page: u16,
    usage: u16,
    device_index: u8,
) -> (r: String)
    ensures
        r@ == spec_opaque_device_id(
            path@,
            vid,
            pid,
            interface_number,
            usage_page,
            usage,
            device_index,
        ),
        r@.len() == 32,
{
    let first = hash_identity(FIRST_SEED, path, vid, pid, interface_number, usage_page, usage, device_index);
    let second = hash_identity(SECOND_SEED, path, vid, pid, interface_number, usage_page, usage, device_index);
    let mut out = String::new();
    push_hex(&mut out, first, 16);
    push_hex(&mut out, second, 16);
    assert(out@ =~= spec_hex(first as nat, 16) + spec_hex(second as nat, 16));
    proof {
        lemma_hex_len(first as nat, 16);
        lemma_hex_len(second as nat, 16);
    }
    out
}


/// Every endpoint of every interface, paired with its interface, in scan order.
pub open spec fn endpoints_of(interfaces: Seq<Interface>) -> Seq<(Interface, Endpoint)>
    decreases interfaces.len(),
{
    if interfaces.len() == 0 {
        Seq::empty()
    } else {
        endpoints_of(interfaces.drop_last()) + paired(interfaces.last(), interfaces.last().endpoints@)
    }
}

pub open spec fn paired(interface: Interface, endpoints: Seq<Endpoint>) -> Seq<(Interface, Endpoint)> {
    endpoints.map_values(|e: Endpoint| (interface, e))
}

pub proof fn lemma_endpoints_of_step(interfaces: Seq<Interface>, i: int)
    requires
        0 <= i < interfaces.len(),
    ensures
        endpoints_of(interfaces.take(i + 1)) == endpoints_of(interfaces.take(i)) + paired(
            interfaces[i],
            interfaces[i].endpoints@,
        ),
{
    assert(interfaces.take(i + 1).drop_last() =~= interfaces.take(i));
}

pub proof fn lemma_paired_step(prefix: Seq<(Interface, Endpoint)>, interface: Interface, endpoints: Seq<Endpoint>, j: int)
    requires
        0 <= j < endpoints.len(),
    ensures
        prefix + paired(interface, endpoints.take(j + 1)) == (prefix + paired(
            interface,
            endpoints.take(j),
        )).push((interface, endpoints[j])),
        paired(interface, endpoints.take(endpoints.len() as int)) == paired(interface, endpoints),
{
    assert(prefix + paired(interface, endpoints.take(j + 1)) =~= (prefix + paired(
        interface,
        endpoints.take(j),
    )).push((interface, endpoints[j])));
    assert(endpoints.take(endpoints.len() as int) =~= endpoints);
}

pub proof fn lemma_endpoints_of_prefix(interfaces: Seq<Interface>, k: int, n: int)
    requires
        0 <= k <= n <= interfaces.len(),
    ensures
        endpoints_of(interfaces.take(k)).len() <= endpoints_of(interfaces.take(n)).len(),
        endpoints_of(interfaces.take(n)).take(endpoints_of(interfaces.take(k)).len() as int)
            == endpoints_of(interfaces.take(k)),
    decreases n - k,
{
    if k < n {
        lemma_endpoints_of_prefix(interfaces, k, n - 1);
        lemma_endpoints_of_step(interfaces, n - 1);
        let a = endpoints_of(interfaces.take(k));
        let b = endpoints_of(interfaces.take(n - 1));
        let c = endpoints_of(interfaces.take(n));
        assert(c.take(a.len() as int) =~= b.take(a.len() as int));
    } else {
        assert(endpoints_of(interfaces.take(n)).take(endpoints_of(interfaces.take(n)).len() as int)
            =~= endpoints_of(interfaces.take(n)));
    }
}

/// The `j`-th endpoint of interface `i` sits right after the endpoints of earlier interfaces.
pub proof fn lemma_endpoint_position(interfaces: Seq<Interface>, i: int, j: int)
    requires
        0 <= i < interfaces.len(),
        0 <= j < interfaces[i].endpoints@.len(),
    ensures
        endpoints_of(interfaces.take(i)).len() + j < endpoints_of(interfaces).len(),
        endpoints_of(interfaces)[endpoints_of(interfaces.take(i)).len() + j] == (
            interfaces[i],
            interfaces[i].endpoints@[j],
        ),
{
    lemma_endpoints_of_step(interfaces, i);
    lemma_endpoints_of_prefix(interfaces, i + 1, interfaces.len() as int);
    assert(interfaces.take(interfaces.len() as int) =~= interfaces);
    let a = endpoints_of(interfaces.take(i + 1));
    let full = endpoints_of(interfaces);
    let p = endpoints_of(interfaces.take(i)).len() + j;
    assert(full.take(a.len() as int)[p] == a[p]);
}

pub struct DpiTargetIdentityView {
    pub device_id: Seq<char>,
    pub interface_number: usize,
    pub hid_interface_number: i32,
    pub vid: u16,
    pub pid: u16,
    pub usage_page: u16,
    pub usage: u16,
    pub product: Seq<char>,
    pub device_index: u8,
    pub feature: Feature,
    pub sensor: dpi::SensorDpiView,
}

/// Everything that identifies one writable 0x2201 endpoint, as seen by a complete scan.
#[derive(Debug, PartialEq, Eq)]
pub struct DpiTargetIdentity {
    pub device_id: String,
    pub interface_number: usize,
    pub hid_interface_number: i32,
    pub vid: u16,
    pub pid: u16,
    pub usage_page: u16,
    pub usage: u16,
    pub product: String,
    pub device_index: u8,
    pub feature: Feature,
    pub sensor: dpi::SensorDpi,
}

impl View for DpiTargetIdentity {
    type V = DpiTargetIdentityView;

    open spec fn view(&self) -> DpiTargetIdentityView {
        DpiTargetIdentityView {
            device_id: self.device_id@,
            interface_number: self.interface_number,
            hid_interface_number: self.hid_interface_number,
            vid: self.vid,
            pid: self.pid,
            usage_page: self.usage_page,
            usage: self.usage,
            product: self.product@,
            device_index: self.device_index,
            feature: self.feature,
            sensor: self.sensor@,
        }
    }
}

impl Clone for DpiTargetIdentity {
    fn clone(&self) -> (r: Self)
        ensures
            r@ == self@,
    {
        DpiTargetIdentity {
            device_id: self.device_id.clone(),
            interface_number: self.interface_number,
            hid_interface_number: self.hid_interface_number,
            vid: self.vid,
            pid: self.pid,
            usage_page: self.usage_page,
            usage: self.usage,
            product: self.product.clone(),
            device_index: self.device_index,
            feature: self.feature,
            sensor: self.sensor.clone(),
        }
    }
}

pub open spec fn identities_view(v: Seq<DpiTargetIdentity>) -> Seq<DpiTargetIdentityView> {
    v.map_values(|t: DpiTargetIdentity| t@)
}

/// The endpoint's entry for 0x2201 (the first one), or the number of entries.
pub open spec fn dpi_entry(e: Endpoint) -> int {
    first_with_id(e.features@, 0x2201, 0)
}

pub open spec fn dpi_entry_result(e: Endpoint) -> Result<Option<Feature>, Error> {
    e.features@[dpi_entry(e)].result
}

pub open spec fn entry_feature(e: Endpoint) -> Feature {
    match dpi_entry_result(e) {
        Ok(Some(f)) => f,
        _ => arbitrary(),
    }
}

pub open spec fn single_sensor(e: Endpoint) -> bool {
    match e.dpi {
        Some(Ok(sensors)) => sensors@.len() == 1,
        _ => false,
    }
}

pub open spec fn the_sensor(e: Endpoint) -> dpi::SensorDpiView {
    match e.dpi {
        Some(Ok(sensors)) => sensors@[0]@,
        _ => arbitrary(),
    }
}

/// A HID++ 2.x endpoint whose 0x2201 state is unknown or whose DPI read did not yield exactly
/// one sensor: no target may be chosen while such an endpoint exists.
pub open spec fn identity_blocked(e: Endpoint) -> bool {
    &&& is_feature_protocol(e.protocol)
    &&& (dpi_entry(e) >= e.features@.len() || dpi_entry_result(e) is Err || (
    dpi_entry_result(e) matches Ok(Some(_)) && !single_sensor(e)))
}

/// A HID++ 2.x endpoint with 0x2201 and exactly one read sensor.
pub open spec fn identity_target(e: Endpoint) -> bool {
    &&& is_feature_protocol(e.protocol)
    &&& dpi_entry(e) < e.features@.len()
    &&& dpi_entry_result(e) matches Ok(Some(_))
    &&& single_sensor(e)
}

pub open spec fn identity_of(i: Interface, e: Endpoint) -> DpiTargetIdentityView {
    DpiTargetIdentityView {
        device_id: e.opaque_id@,
        interface_number: i.number,
        hid_interface_number: i.interface_number,
        vid: i.vid,
        pid: i.pid,
        usage_page: i.usage_page,
        usage: i.usage,
        product: i.product@,
        device_index: e.index,
        feature: entry_feature(e),
        sensor: the_sensor(e),
    }
}

pub open spec fn spec_identities(ps: Seq<(Interface, Endpoint)>) -> Seq<DpiTargetIdentityView>
    decreases ps.len(),
{
    if ps.len() == 0 {
        Seq::empty()
    } else if identity_target(ps.last().1) {
        spec_identities(ps.drop_last()).push(identity_of(ps.last().0, ps.last().1))
    } else {
        spec_identities(ps.drop_last())
    }
}

pub open spec fn any_blocked(ps: Seq<(Interface, Endpoint)>) -> bool {
    exists|k: int| 0 <= k < ps.len() && identity_blocked(#[trigger] ps[k].1)
}

/// All writable 0x2201 targets of a complete scan, or `None` when any HID++ 2.x endpoint
/// leaves the DPI topology incomplete.
pub open spec fn spec_dpi_identities(interfaces: Seq<Interface>) -> Option<Seq<DpiTargetIdentityView>> {
    if any_blocked(endpoints_of(interfaces)) {
        None
    } else {
        Some(spec_identities(endpoints_of(interfaces)))
    }
}

pub open spec fn identities_option_view(r: Option<Vec<DpiTargetIdentity>>) -> Option<Seq<DpiTargetIdentityView>> {
    match r {
        Some(v) => Some(identities_view(v@)),
        None => None,
    }
}

pub fn is_feature(protocol: &Result<Protocol, Error>) -> (r: bool)
    ensures
        r == is_feature_protocol(*protocol),
{
    match protocol {
        Ok(Protocol::Feature { .. }) => true,
        _ => false,
    }
}

pub fn dpi_identities(interfaces: &[Interface]) -> (r: Option<Vec<DpiTargetIdentity>>)
    ensures
        identities_option_view(r) == spec_dpi_identities(interfaces@),
{
    let mut targets: Vec<DpiTargetIdentity> = Vec::new();
    let mut i: usize = 0;
    assert(interfaces@.take(0) =~= Seq::<Interface>::empty());
    while i < interfaces.len()
        invariant
            i <= interfaces@.len(),
            identities_view(targets@) == spec_identities(endpoints_of(interfaces@.take(i as int))),
            !any_blocked(endpoints_of(interfaces@.take(i as int))),
        decreases interfaces@.len() - i,
    {
        let interface = &interfaces[i];
        let ghost prefix = endpoints_of(interfaces@.take(i as int));
        let mut j: usize = 0;
        assert(paired(*interface, interface.endpoints@.take(0)) =~= Seq::<(Interface, Endpoint)>::empty());
        assert(prefix + paired(*interface, interface.endpoints@.take(0)) =~= prefix);
        while j < interface.endpoints.len()
            invariant
                i < interfaces@.len(),
                *interface == interfaces@[i as int],
                prefix == endpoints_of(interfaces@.take(i as int)),
                j <= interface.endpoints@.len(),
                identities_view(targets@) == spec_identities(
                    prefix + paired(*interface, interface.endpoints@.take(j as int)),
                ),
                !any_blocked(prefix + paired(*interface, interface.endpoints@.take(j as int))),
            decreases interface.endpoints@.len() - j,
        {
            let endpoint = &interface.endpoints[j];
            let ghost before = prefix + paired(*interface, interface.endpoints@.take(j as int));
            proof {
                lemma_paired_step(prefix, *interface, interface.endpoints@, j as int);
            }
            let ghost after = before.push((*interface, *endpoint));
            assert(after.drop_last() =~= before);
            assert(after.last() == (*interface, *endpoint));
            if is_feature(&endpoint.protocol) {
                let found = find_feature(endpoint.features.as_slice(), 0x2201);
                let k = match found {
                    None => {
                        proof {
                            lemma_endpoint_position(interfaces@, i as int, j as int);
                        }
                        assert(identity_blocked(after[after.len() - 1].1));
                        return None;
                    },
                    Some(k) => k,
                };
                match &endpoint.features[k].result {
                    Ok(Some(feature)) => {
                        let single = match &endpoint.dpi {
                            Some(Ok(sensors)) => sensors.len() == 1,
                            _ => false,
                        };
                        if !single {
                            proof {
                                lemma_endpoint_position(interfaces@, i as int, j as int);
                            }
                            assert(identity_blocked(after[after.len() - 1].1));
                            return None;
                        }
                        let sensor = match &endpoint.dpi {
                            Some(Ok(sensors)) => sensors[0].clone(),
                            _ => {
                                assert(false);
                                return None;
                            },
                        };
                        let ghost old_targets = targets@;
                        targets.push(
                            DpiTargetIdentity {
                                device_id: endpoint.opaque_id.clone(),
                                interface_number: interface.number,
                                hid_interface_number: interface.interface_number,
                                vid: interface.vid,
                                pid: interface.pid,
                                usage_page: interface.usage_page,
                                usage: interface.usage,
                                product: interface.product.clone(),
                                device_index: endpoint.index,
                                feature: *feature,
                                sensor,
                            },
                        );
                        assert(identities_view(targets@) =~= identities_view(old_targets).push(
                            identity_of(*interface, *endpoint),
                        ));
                    },
                    Ok(None) => {},
                    Err(_) => {
                        proof {
                            lemma_endpoint_position(interfaces@, i as int, j as int);
                        }
                        assert(identity_blocked(after[after.len() - 1].1));
                        return None;
                    },
                }
            }
            assert(!any_blocked(after)) by {
                assert forall|k: int| 0 <= k < after.len() implies !identity_blocked(
                    #[trigger] after[k].1,
                ) by {
                    if k < before.len() {
                        assert(after[k] == before[k]);
                    }
                }
            }
            j = j + 1;
        }
        proof {
            lemma_endpoints_of_step(interfaces@, i as int);
            assert(interface.endpoints@.take(interface.endpoints@.len() as int) =~= interface.endpoints@);
            assert(interfaces@.take(i + 1).drop_last() =~= interfaces@.take(i as int));
        }
        i = i + 1;
    }
    assert(interfaces@.take(interfaces@.len() as int) =~= interfaces@);
    Some(targets)
}


pub open spec fn count_id(ids: Seq<DpiTargetIdentityView>, id: Seq<char>) -> nat
    decreases ids.len(),
{
    if ids.len() == 0 {
        0
    } else {
        count_id(ids.drop_last(), id) + if ids.last().device_id == id {
            1nat
        } else {
            0nat
        }
    }
}

/// Index of the first identity with `id` at or after `i`, or the number of identities.
pub open spec fn first_id(ids: Seq<DpiTargetIdentityView>, id: Seq<char>, i: int) -> int
    decreases ids.len() - i,
{
    if i < 0 || i >= ids.len() {
        ids.len() as int
    } else if ids[i].device_id == id {
        i
    } else {
        first_id(ids, id, i + 1)
    }
}

/// A sole target is chosen by itself; among several, only an explicit selection that matches
/// exactly one of them chooses.
pub open spec fn spec_select(ids: Seq<DpiTargetIdentityView>, selected: Option<Seq<char>>) -> Option<
    DpiTargetIdentityView,
> {
    if ids.len() == 1 {
        Some(ids[0])
    } else {
        match selected {
            None => None,
            Some(id) => if count_id(ids, id) == 1 {
                Some(ids[first_id(ids, id, 0)])
            } else {
                None
            },
        }
    }
}

pub open spec fn str_option_view(s: Option<&str>) -> Option<Seq<char>> {
    match s {
        Some(v) => Some(v@),
        None => None,
    }
}

pub open spec fn identity_option_view(r: Option<DpiTargetIdentity>) -> Option<DpiTargetIdentityView> {
    match r {
        Some(v) => Some(v@),
        None => None,
    }
}

proof fn lemma_first_id_skip(ids: Seq<DpiTargetIdentityView>, id: Seq<char>, i: int)
    requires
        0 <= i <= ids.len(),
        forall|j: int| 0 <= j < i ==> ids[j].device_id != id,
    ensures
        first_id(ids, id, 0) == first_id(ids, id, i),
    decreases i,
{
    if i > 0 {
        lemma_first_id_skip(ids, id, i - 1);
    }
}

pub fn select_dpi_identity(identities: Vec<DpiTargetIdentity>, selected_device: Option<&str>) -> (r: Option<
    DpiTargetIdentity,
>)
    ensures
        identity_option_view(r) == spec_select(identities_view(identities@), str_option_view(selected_device)),
{
    let mut identities = identities;
    let ghost ids = identities_view(identities@);
    if identities.len() == 1 {
        return Some(identities.remove(0));
    }
    let selected = match selected_device {
        Some(s) => s,
        None => return None,
    };
    let mut index: Option<usize> = None;
    let mut count: usize = 0;
    let mut i: usize = 0;
    while i < identities.len()
        invariant
            ids == identities_view(identities@),
            i <= identities@.len(),
            count == count_id(ids.take(i as int), selected@),
            count <= i,
            match index {
                None => count == 0 && forall|j: int| 0 <= j < i ==> ids[j].device_id != selected@,
                Some(k) => k < i && k == first_id(ids, selected@, 0),
            },
        decreases identities@.len() - i,
    {
        assert(ids.take(i + 1).drop_last() =~= ids.take(i as int));
        if str_eq(identities[i].device_id.as_str(), selected) {
            if index.is_none() {
                proof {
                    lemma_first_id_skip(ids, selected@, i as int);
                }
                index = Some(i);
            }
            count = count + 1;
        }
        i = i + 1;
    }
    assert(ids.take(ids.len() as int) =~= ids);
    match index {
        Some(k) => {
            if count == 1 {
                Some(identities.remove(k))
            } else {
                None
            }
        },
        None => None,
    }
}

pub open spec fn spec_revalidation_matches(
    identity: DpiTargetIdentityView,
    feature: Feature,
    sensors: Seq<dpi::SensorDpiView>,
) -> bool {
    &&& feature == identity.feature
    &&& sensors.len() == 1
    &&& sensors[0].sensor == identity.sensor.sensor
    &&& sensors[0].supported == identity.sensor.supported
}

pub fn dpi_values_eq(a: &dpi::DpiValues, b: &dpi::DpiValues) -> (r: bool)
    ensures
        r == (a@ == b@),
{
    match (a, b) {
        (dpi::DpiValues::List(x), dpi::DpiValues::List(y)) => {
            if x.len() != y.len() {
                return false;
            }
            let mut i: usize = 0;
            while i < x.len()
                invariant
                    a@ == dpi::DpiValuesView::List(x@),
                    b@ == dpi::DpiValuesView::List(y@),
                    x@.len() == y@.len(),
                    i <= x@.len(),
                    forall|j: int| 0 <= j < i ==> x@[j] == y@[j],
                decreases x@.len() - i,
            {
                if x[i] != y[i] {
                    assert(x@[i as int] != y@[i as int]);
                    assert(x@ != y@);
                    return false;
                }
                i = i + 1;
            }
            assert(x@ =~= y@);
            true
        },
        (
            dpi::DpiValues::Range { minimum: a0, maximum: a1, step: a2 },
            dpi::DpiValues::Range { minimum: b0, maximum: b1, step: b2 },
        ) => *a0 == *b0 && *a1 == *b1 && *a2 == *b2,
        _ => false,
    }
}

/// A fresh read of the target still shows the same feature and the same sole sensor with the
/// same supported values.
pub fn revalidation_matches(
    identity: &DpiTargetIdentity,
    feature: Feature,
    sensors: &[dpi::SensorDpi],
) -> (r: bool)
    ensures
        r == spec_revalidation_matches(identity@, feature, dpi::sensors_view(sensors@)),
{
    feature == identity.feature && sensors.len() == 1 && sensors[0].sensor == identity.sensor.sensor
        && dpi_values_eq(&sensors[0].supported, &identity.sensor.supported)
}

/// Only an independently read-back requested value keeps a cached target usable.
pub open spec fn spec_outcome_keeps_target(outcome: dpi::SetDpiOutcome) -> bool {
    outcome is Verified || outcome is TimedOutConfirmed
}

pub fn outcome_keeps_target(outcome: &dpi::SetDpiOutcome) -> (r: bool)
    ensures
        r == spec_outcome_keeps_target(*outcome),
{
    match outcome {
        dpi::SetDpiOutcome::Verified { .. } | dpi::SetDpiOutcome::TimedOutConfirmed { .. } => true,
        _ => false,
    }
}

pub open spec fn spec_identity_matches_info(
    identity: DpiTargetIdentityView,
    vid: u16,
    pid: u16,
    interface_number: i32,
    usage_page: u16,
    usage: u16,
    product: Seq<char>,
) -> bool {
    &&& vid == identity.vid
    &&& pid == identity.pid
    &&& interface_number == identity.hid_interface_number
    &&& usage_page == identity.usage_page
    &&& usage == identity.usage
    &&& product == identity.product
}

/// Whether enumerated HID metadata (its product label already made safe) still describes the
/// target's interface.
pub fn identity_matches_info(
    identity: &DpiTargetIdentity,
    vid: u16,
    pid: u16,
    interface_number: i32,
    usage_page: u16,
    usage: u16,
    product: &str,
) -> (r: bool)
    ensures
        r == spec_identity_matches_info(identity@, vid, pid, interface_number, usage_page, usage, product@),
{
    vid == identity.vid && pid == identity.pid && interface_number == identity.hid_interface_number
        && usage_page == identity.usage_page && usage == identity.usage && str_eq(
        product,
        identity.product.as_str(),
    )
}

/// An endpoint that makes a battery-only scan unusable for keeping a target: a HID++ 2.x
/// endpoint without a 0x2201 answer.
pub open spec fn scan_bad(e: Endpoint) -> bool {
    is_feature_protocol(e.protocol) && (dpi_entry(e) >= e.features@.len()
        || dpi_entry_result(e) is Err)
}

/// A HID++ 2.x endpoint with 0x2201 that carries the target's device ID.
pub open spec fn scan_hit(e: Endpoint, identity: DpiTargetIdentityView) -> bool {
    &&& is_feature_protocol(e.protocol)
    &&& dpi_entry(e) < e.features@.len()
    &&& dpi_entry_result(e) matches Ok(Some(_))
    &&& e.opaque_id@ == identity.device_id
}

/// The hit still has the target's HID metadata, endpoint index and feature.
pub open spec fn hit_agrees(p: (Interface, Endpoint), identity: DpiTargetIdentityView) -> bool {
    &&& p.0.interface_number == identity.hid_interface_number
    &&& p.0.vid == identity.vid
    &&& p.0.pid == identity.pid
    &&& p.0.usage_page == identity.usage_page
    &&& p.0.usage == identity.usage
    &&& p.0.product@ == identity.product
    &&& p.1.index == identity.device_index
    &&& entry_feature(p.1) == identity.feature
}

pub open spec fn count_hits(ps: Seq<(Interface, Endpoint)>, identity: DpiTargetIdentityView) -> nat
    decreases ps.len(),
{
    if ps.len() == 0 {
        0
    } else {
        count_hits(ps.drop_last(), identity) + if scan_hit(ps.last().1, identity) {
            1nat
        } else {
            0nat
        }
    }
}

/// A battery-only scan keeps a target only when no HID++ 2.x endpoint lacks a 0x2201 answer,
/// exactly one endpoint carries the target's ID, and it agrees with the target's identity.
pub open spec fn spec_identity_matches_scan(identity: DpiTargetIdentityView, ps: Seq<(Interface, Endpoint)>) -> bool {
    &&& forall|k: int| 0 <= k < ps.len() ==> !scan_bad(#[trigger] ps[k].1)
    &&& count_hits(ps, identity) == 1
    &&& forall|k: int| 0 <= k < ps.len() && scan_hit(#[trigger] ps[k].1, identity) ==> hit_agrees(ps[k], identity)
}

proof fn lemma_count_hits_pos(ps: Seq<(Interface, Endpoint)>, identity: DpiTargetIdentityView, k: int)
    requires
        0 <= k < ps.len(),
        scan_hit(ps[k].1, identity),
    ensures
        count_hits(ps, identity) >= 1,
    decreases ps.len(),
{
    if k < ps.len() - 1 {
        assert(ps.drop_last()[k] == ps[k]);
        lemma_count_hits_pos(ps.drop_last(), identity, k);
    }
}

proof fn lemma_count_hits_prefix(ps: Seq<(Interface, Endpoint)>, identity: DpiTargetIdentityView, n: int)
    requires
        0 <= n <= ps.len(),
    ensures
        count_hits(ps.take(n), identity) <= count_hits(ps, identity),
    decreases ps.len() - n,
{
    if n < ps.len() {
        lemma_count_hits_prefix(ps, identity, n + 1);
        assert(ps.take(n + 1).drop_last() =~= ps.take(n));
    } else {
        assert(ps.take(n) =~= ps);
    }
}

/// Whether a battery-only scan still shows the cached target, unchanged and unique.
pub fn identity_matches_scan(identity: &DpiTargetIdentity, interfaces: &[Interface]) -> (r: bool)
    ensures
        r == spec_identity_matches_scan(identity@, endpoints_of(interfaces@)),
{
    let ghost full = endpoints_of(interfaces@);
    let mut matched = false;
    let mut i: usize = 0;
    assert(interfaces@.take(0) =~= Seq::<Interface>::empty());
    while i < interfaces.len()
        invariant
            i <= interfaces@.len(),
            full == endpoints_of(interfaces@),
            ({
                let ps = endpoints_of(interfaces@.take(i as int));
                &&& forall|k: int| 0 <= k < ps.len() ==> !scan_bad(#[trigger] ps[k].1)
                &&& count_hits(ps, identity@) == if matched { 1nat } else { 0nat }
                &&& forall|k: int| 0 <= k < ps.len() && scan_hit(#[trigger] ps[k].1, identity@) ==> hit_agrees(ps[k], identity@)
            }),
        decreases interfaces@.len() - i,
    {
        let interface = &interfaces[i];
        let ghost prefix = endpoints_of(interfaces@.take(i as int));
        let mut j: usize = 0;
        assert(prefix + paired(*interface, interface.endpoints@.take(0)) =~= prefix);
        while j < interface.endpoints.len()
            invariant
                i < interfaces@.len(),
                full == endpoints_of(interfaces@),
                *interface == interfaces@[i as int],
                prefix == endpoints_of(interfaces@.take(i as int)),
                j <= interface.endpoints@.len(),
                ({
                    let ps = prefix + paired(*interface, interface.endpoints@.take(j as int));
                    &&& forall|k: int| 0 <= k < ps.len() ==> !scan_bad(#[trigger] ps[k].1)
                    &&& count_hits(ps, identity@) == if matched { 1nat } else { 0nat }
                    &&& forall|k: int| 0 <= k < ps.len() && scan_hit(#[trigger] ps[k].1, identity@) ==> hit_agrees(ps[k], identity@)
                }),
            decreases interface.endpoints@.len() - j,
        {
            let endpoint = &interface.endpoints[j];
            let ghost before = prefix + paired(*interface, interface.endpoints@.take(j as int));
            proof {
                lemma_paired_step(prefix, *interface, interface.endpoints@, j as int);
                lemma_endpoint_position(interfaces@, i as int, j as int);
            }
            let ghost after = before.push((*interface, *endpoint));
            let ghost pos = before.len() as int;
            assert(before.len() == endpoints_of(interfaces@.take(i as int)).len() + j) by {
                assert(paired(*interface, interface.endpoints@.take(j as int)).len() == j);
            }
            assert(after.drop_last() =~= before);
            if is_feature(&endpoint.protocol) {
                let k = match find_feature(endpoint.features.as_slice(), 0x2201) {
                    None => {
                        assert(scan_bad(full[pos].1));
                        return false;
                    },
                    Some(k) => k,
                };
                match &endpoint.features[k].result {
                    Ok(Some(feature)) => {
                        if str_eq(endpoint.opaque_id.as_str(), identity.device_id.as_str()) {
                            if matched || interface.interface_number != identity.hid_interface_number
                                || interface.vid != identity.vid || interface.pid != identity.pid
                                || interface.usage_page != identity.usage_page || interface.usage
                                != identity.usage || !str_eq(
                                interface.product.as_str(),
                                identity.product.as_str(),
                            ) || endpoint.index != identity.device_index || *feature
                                != identity.feature {
                                proof {
                                    if matched {
                                        lemma_count_hits_prefix(full, identity@, pos + 1);
                                        lemma_endpoints_of_step(interfaces@, i as int);
                                        lemma_endpoints_of_prefix(interfaces@, i + 1, interfaces@.len() as int);
                                        assert(interfaces@.take(interfaces@.len() as int) =~= interfaces@);
                                        let e1 = endpoints_of(interfaces@.take(i + 1));
                                        assert(e1.take(pos + 1) =~= prefix + paired(*interface, interface.endpoints@.take(j + 1)));
                                        assert(full.take(pos + 1) =~= e1.take(pos + 1));
                                        assert(full.take(pos + 1) =~= after);
                                    } else {
                                        assert(!hit_agrees(full[pos], identity@));
                                    }
                                }
                                return false;
                            }
                            matched = true;
                        }
                    },
                    Ok(None) => {},
                    Err(_) => {
                        assert(scan_bad(full[pos].1));
                        return false;
                    },
                }
            }
            assert forall|k: int| 0 <= k < after.len() && scan_hit(#[trigger] after[k].1, identity@) implies hit_agrees(after[k], identity@) by {
                if k < before.len() {
                    assert(after[k] == before[k]);
                }
            }
            assert forall|k: int| 0 <= k < after.len() implies !scan_bad(#[trigger] after[k].1) by {
                if k < before.len() {
                    assert(after[k] == before[k]);
                }
            }
            j = j + 1;
        }
        proof {
            lemma_endpoints_of_step(interfaces@, i as int);
            assert(interface.endpoints@.take(interface.endpoints@.len() as int) =~= interface.endpoints@);
        }
        i = i + 1;
    }
    assert(interfaces@.take(interfaces@.len() as int) =~= interfaces@);
    matched
}


/// The first discovered feature with `id` (and version 0 when `only_version_zero`), in scan order.
pub open spec fn first_found(features: Seq<FeatureResult>, id: u16, only_version_zero: bool) -> Option<
    Feature,
>
    decreases features.len(),
{
    if features.len() == 0 {
        None
    } else {
        match features[0].result {
            Ok(Some(f)) => if f.id == id && (!only_version_zero || f.version == 0) {
                Some(f)
            } else {
                first_found(features.drop_first(), id, only_version_zero)
            },
            _ => first_found(features.drop_first(), id, only_version_zero),
        }
    }
}

/// The battery feature a scan reads: Unified Battery `0x1004` when discovered, otherwise
/// `0x1000` version 0.
pub open spec fn spec_battery_feature(features: Seq<FeatureResult>) -> Option<Feature> {
    match first_found(features, 0x1004, false) {
        Some(f) => Some(f),
        None => first_found(features, 0x1000, true),
    }
}

/// The DPI feature a scan reads: `0x2201` when discovered.
pub open spec fn spec_dpi_feature(features: Seq<FeatureResult>) -> Option<Feature> {
    first_found(features, 0x2201, false)
}

fn find_found(features: &[FeatureResult], id: u16, only_version_zero: bool) -> (r: Option<Feature>)
    ensures
        r == first_found(features@, id, only_version_zero),
{
    let mut i: usize = 0;
    proof {
        assert(features@.skip(0) =~= features@);
    }
    while i < features.len()
        invariant
            i <= features@.len(),
            first_found(features@, id, only_version_zero) == first_found(
                features@.skip(i as int),
                id,
                only_version_zero,
            ),
        decreases features@.len() - i,
    {
        let ghost rest = features@.skip(i as int);
        assert(rest[0] == features@[i as int]);
        assert(rest.drop_first() =~= features@.skip(i + 1));
        match &features[i].result {
            Ok(Some(f)) => {
                if f.id == id && (!only_version_zero || f.version == 0) {
                    return Some(*f);
                }
            },
            _ => {},
        }
        i = i + 1;
    }
    None
}

pub fn battery_feature(features: &[FeatureResult]) -> (r: Option<Feature>)
    ensures
        r == spec_battery_feature(features@),
{
    match find_found(features, 0x1004, false) {
        Some(f) => Some(f),
        None => find_found(features, 0x1000, true),
    }
}

pub fn dpi_feature(features: &[FeatureResult]) -> (r: Option<Feature>)
    ensures
        r == spec_dpi_feature(features@),
{
    find_found(features, 0x2201, false)
}

/// The feature IDs a scan asks every HID++ 2.x endpoint about: the battery IDs, then the DPI IDs.
pub open spec fn scan_feature_ids() -> Seq<u16> {
    seq![0x1000u16, 0x1001u16, 0x1004u16, 0x2201u16, 0x2202u16]
}

/// The calls of `log` from boundary `j` to boundary `j + 1`.
pub open spec fn segment(log: Seq<Call>, bounds: Seq<int>, j: int) -> Seq<Call> {
    log.subrange(bounds[j], bounds[j + 1])
}

pub open spec fn discovered_at(
    log: Seq<Call>,
    bounds: Seq<int>,
    device: u8,
    ids: Seq<u16>,
    features: Seq<FeatureResult>,
    j: int,
) -> bool {
    &&& 0 <= bounds[j] <= bounds[j + 1] <= log.len()
    &&& one_read(segment(log, bounds, j), device, 0, 0, feature_id_bytes(ids[j]))
    &&& features[j].id == ids[j]
    &&& features[j].result == hidpp::spec_discover(ids[j], read_only_reply(segment(log, bounds, j)))
}

/// `log` is one read-only feature lookup per ID of `ids`, in order, split at `bounds`; and
/// `features` holds each ID with what its reply gives.
pub open spec fn discovered(
    log: Seq<Call>,
    bounds: Seq<int>,
    device: u8,
    ids: Seq<u16>,
    features: Seq<FeatureResult>,
) -> bool {
    &&& bounds.len() == ids.len() + 1
    &&& bounds[0] == 0
    &&& bounds[ids.len() as int] == log.len()
    &&& features.len() == ids.len()
    &&& forall|j: int| 0 <= j < ids.len() ==> #[trigger] discovered_at(log, bounds, device, ids, features, j)
}

/// The battery read of a scan: made exactly when asked for and a battery feature was found.
pub open spec fn battery_part(
    log: Seq<Call>,
    device: u8,
    options: ScanOptions,
    features: Seq<FeatureResult>,
    result: Option<Result<battery::Battery, Error>>,
) -> bool {
    if options.read_battery && spec_battery_feature(features) is Some {
        result matches Some(r) && battery::spec_battery_read(
            log,
            device,
            spec_battery_feature(features)->0,
            r,
        )
    } else {
        log.len() == 0 && result is None
    }
}

/// The DPI read of a scan: made exactly when asked for and `0x2201` was found.
pub open spec fn dpi_part(
    log: Seq<Call>,
    device: u8,
    options: ScanOptions,
    features: Seq<FeatureResult>,
    result: Option<Result<Vec<dpi::SensorDpi>, Error>>,
) -> bool {
    if options.read_dpi && spec_dpi_feature(features) is Some {
        result matches Some(r) && dpi::spec_dpi_read(
            log,
            device,
            spec_dpi_feature(features)->0,
            dpi::sensors_result_view(r),
        )
    } else {
        log.len() == 0 && result is None
    }
}

/// What scanning endpoint `index` sends and records: a ping; for a HID++ 2.x endpoint, then one
/// lookup per scanned feature ID, the battery read and the DPI read.
pub open spec fn spec_scan_endpoint(log: Seq<Call>, index: u8, options: ScanOptions, e: Endpoint) -> bool {
    let n = read_only_len(log);
    &&& read_only_step(log, index, 0, 1, seq![0u8, 0u8, hidpp::PING])
    &&& e.protocol == hidpp::spec_probe(read_only_reply(log))
    &&& if is_feature_protocol(e.protocol) {
        exists|a: int, b: int, bounds: Seq<int>|
            #![trigger discovered(log.subrange(n, a), bounds, index, scan_feature_ids(), e.features@), log.subrange(a, b)]
            {
                &&& n <= a <= b <= log.len()
                &&& discovered(log.subrange(n, a), bounds, index, scan_feature_ids(), e.features@)
                &&& battery_part(log.subrange(a, b), index, options, e.features@, e.battery)
                &&& dpi_part(log.skip(b), index, options, e.features@, e.dpi)
            }
    } else {
        &&& log.len() == n
        &&& e.features@.len() == 0
        &&& e.battery is None
        &&& e.dpi is None
    }
}

#[verifier::rlimit(30)]
fn discover_all<E: Exchange>(transport: &mut Recorded<E>, index: u8) -> (r: (Vec<FeatureResult>, Ghost<Seq<int>>))
    ensures
        extends(old(transport).calls(), final(transport).calls()),
        discovered(
            new_calls(old(transport).calls(), final(transport).calls()),
            r.1@,
            index,
            scan_feature_ids(),
            r.0@,
        ),
        no_writes(new_calls(old(transport).calls(), final(transport).calls())),
{
    let ghost start = transport.calls();
    let ids: [u16; 5] = [0x1000, 0x1001, 0x1004, 0x2201, 0x2202];
    assert(ids@ =~= scan_feature_ids());
    let mut features: Vec<FeatureResult> = Vec::new();
    let ghost mut bounds: Seq<int> = seq![0int];
    let mut k: usize = 0;
    proof {
        lemma_extends_refl(start);
        assert(ids@.take(0) =~= Seq::<u16>::empty());
    }
    while k < 5
        invariant
            k <= 5,
            ids@ == scan_feature_ids(),
            extends(start, transport.calls()),
            discovered(new_calls(start, transport.calls()), bounds, index, ids@.take(k as int), features@),
            no_writes(new_calls(start, transport.calls())),
        decreases 5 - k,
    {
        let ghost before = transport.calls();
        let ghost old_bounds = bounds;
        let ghost old_features = features@;
        let id = ids[k];
        let result = hidpp::discover(transport, index, id);
        features.push(FeatureResult { id, result });
        proof {
            let now = transport.calls();
            lemma_extends_concat(start, before, now);
            let old_log = new_calls(start, before);
            let seg = new_calls(before, now);
            let log = new_calls(start, now);
            assert(log =~= old_log + seg);
            bounds = old_bounds.push(log.len() as int);
            let old_ids = ids@.take(k as int);
            let new_ids = ids@.take(k + 1);
            assert forall|j: int| 0 <= j < k + 1 implies #[trigger] discovered_at(
                log,
                bounds,
                index,
                new_ids,
                features@,
                j,
            ) by {
                if j < k {
                    assert(discovered_at(old_log, old_bounds, index, old_ids, old_features, j));
                    assert(segment(log, bounds, j) =~= segment(old_log, old_bounds, j));
                    assert(new_ids[j] == old_ids[j]);
                    assert(features@[j] == old_features[j]);
                } else {
                    assert(segment(log, bounds, j) =~= seg);
                }
            }
            hidpp::lemma_step_no_writes(seg, index, 0, 0, feature_id_bytes(id));
            hidpp::lemma_no_writes_concat(old_log, seg);
        }
        k = k + 1;
    }
    assert(ids@.take(5) =~= ids@);
    (features, Ghost(bounds))
}

proof fn lemma_scan_log(
    p: Seq<Call>,
    d: Seq<Call>,
    bt: Seq<Call>,
    dp: Seq<Call>,
    bounds: Seq<int>,
    index: u8,
    options: ScanOptions,
    e: Endpoint,
)
    requires
        one_read(p, index, 0, 1, seq![0u8, 0u8, hidpp::PING]),
        e.protocol == hidpp::spec_probe(read_only_reply(p)),
        is_feature_protocol(e.protocol),
        discovered(d, bounds, index, scan_feature_ids(), e.features@),
        battery_part(bt, index, options, e.features@, e.battery),
        dpi_part(dp, index, options, e.features@, e.dpi),
        no_writes(p),
        no_writes(d),
        hidpp::no_writes(bt),
        no_writes(dp),
    ensures
        spec_scan_endpoint(p + d + bt + dp, index, options, e),
        no_writes(p + d + bt + dp),
{
    let log = p + d + bt + dp;
    assert(log =~= p + (d + bt + dp));
    lemma_read_then(p, d + bt + dp, index, 0, 1, seq![0u8, 0u8, hidpp::PING]);
    let n = read_only_len(log);
    let a = n + d.len();
    let b = a + bt.len();
    assert(log.subrange(n, a) =~= d);
    assert(log.subrange(a, b) =~= bt);
    assert(log.skip(b) =~= dp);
    assert(discovered(log.subrange(n, a), bounds, index, scan_feature_ids(), e.features@));
    hidpp::lemma_no_writes_concat(p, d);
    hidpp::lemma_no_writes_concat(p + d, bt);
    hidpp::lemma_no_writes_concat(p + d + bt, dp);
}

/// Probes endpoint `index` of an open interface and, for a HID++ 2.x endpoint, looks up the
/// scanned features and reads what `options` asks for. Every request is a read.
pub fn scan_endpoint<E: Exchange>(transport: &mut Recorded<E>, index: u8, opaque_id: String, options: ScanOptions) -> (r: Endpoint)
    ensures
        extends(old(transport).calls(), final(transport).calls()),
        r.index == index,
        r.opaque_id@ == opaque_id@,
        spec_scan_endpoint(new_calls(old(transport).calls(), final(transport).calls()), index, options, r),
        no_writes(new_calls(old(transport).calls(), final(transport).calls())),
{
    let ghost l0 = transport.calls();
    let protocol = hidpp::probe(transport, index);
    let ghost l1 = transport.calls();
    let ghost p = new_calls(l0, l1);
    proof {
        hidpp::lemma_step_no_writes(p, index, 0, 1, seq![0u8, 0u8, hidpp::PING]);
    }
    if !is_feature(&protocol) {
        return Endpoint {
            index,
            opaque_id,
            protocol,
            features: Vec::new(),
            battery: None,
            dpi: None,
        };
    }
    let (features, Ghost(bounds)) = discover_all(transport, index);
    let ghost l2 = transport.calls();
    let mut battery_result: Option<Result<battery::Battery, Error>> = None;
    if options.read_battery {
        match battery_feature(features.as_slice()) {
            Some(feature) => {
                let ghost before = transport.calls();
                let read = battery::read(transport, index, feature);
                proof {
                    battery::lemma_battery_read_no_writes(new_calls(before, transport.calls()), index, feature, read);
                }
                battery_result = Some(read);
            },
            None => {},
        }
    }
    let ghost l3 = transport.calls();
    proof {
        if l3 == l2 {
            lemma_extends_refl(l2);
        }
    }
    let mut dpi_result: Option<Result<Vec<dpi::SensorDpi>, Error>> = None;
    if options.read_dpi {
        match dpi_feature(features.as_slice()) {
            Some(feature) => {
                let ghost before = transport.calls();
                let read = dpi::read(transport, index, feature);
                proof {
                    dpi::lemma_dpi_read_no_writes(
                        new_calls(before, transport.calls()),
                        index,
                        feature,
                        dpi::sensors_result_view(read),
                    );
                }
                dpi_result = Some(read);
            },
            None => {},
        }
    }
    let ghost l4 = transport.calls();
    let r = Endpoint { index, opaque_id, protocol, features, battery: battery_result, dpi: dpi_result };
    proof {
        if l4 == l3 {
            lemma_extends_refl(l3);
        }
        lemma_extends_concat(l0, l1, l2);
        lemma_extends_concat(l0, l2, l3);
        lemma_extends_concat(l0, l3, l4);
        lemma_scan_log(p, new_calls(l1, l2), new_calls(l2, l3), new_calls(l3, l4), bounds, index, options, r);
        assert(new_calls(l0, l4) =~= p + new_calls(l1, l2) + new_calls(l2, l3) + new_calls(l3, l4));
    }
    r
}


/// What HID enumeration reports of one interface, as plain values.
#[derive(Debug)]
pub struct HidInfo {
    pub path: Vec<u8>,
    pub vid: u16,
    pub pid: u16,
    pub product: Option<String>,
    pub manufacturer: Option<String>,
    pub interface_number: i32,
    pub usage_page: u16,
    pub usage: u16,
}

pub struct HidInfoView {
    pub path: Seq<u8>,
    pub vid: u16,
    pub pid: u16,
    pub product: Option<Seq<char>>,
    pub manufacturer: Option<Seq<char>>,
    pub interface_number: i32,
    pub usage_page: u16,
    pub usage: u16,
}

impl View for HidInfo {
    type V = HidInfoView;

    open spec fn view(&self) -> HidInfoView {
        HidInfoView {
            path: self.path@,
            vid: self.vid,
            pid: self.pid,
            product: match self.product {
                Some(p) => Some(p@),
                None => None,
            },
            manufacturer: match self.manufacturer {
                Some(m) => Some(m@),
                None => None,
            },
            interface_number: self.interface_number,
            usage_page: self.usage_page,
            usage: self.usage,
        }
    }
}

pub open spec fn infos_view(v: Seq<HidInfo>) -> Seq<HidInfoView> {
    v.map_values(|i: HidInfo| i@)
}

/// The label shown for a metadata string: made safe, or "Unavailable" when absent.
pub open spec fn spec_label(value: Option<Seq<char>>) -> Seq<char> {
    match value {
        Some(v) => spec_safe_label(v),
        None => spec_safe_label("Unavailable"@),
    }
}

pub fn label(value: &Option<String>) -> (r: String)
    ensures
        r@ == spec_label(match value {
            Some(v) => Some(v@),
            None => None,
        }),
{
    match value {
        Some(v) => safe_label(v.as_str()),
        None => safe_label("Unavailable"),
    }
}

/// The positions, in enumeration order, of the Logitech devices among `devices`.
pub open spec fn spec_logitech_indices(devices: Seq<HidInfoView>) -> Seq<usize>
    decreases devices.len(),
{
    if devices.len() == 0 {
        Seq::empty()
    } else {
        let before = spec_logitech_indices(devices.drop_last());
        if devices.last().vid == LOGITECH_VID {
            before.push((devices.len() - 1) as usize)
        } else {
            before
        }
    }
}

/// The HID++ candidates among `devices`, each as the pair of its interface number (its
/// position among the Logitech devices, counted from 1) and its position in `devices`.
pub open spec fn spec_preflight_targets(devices: Seq<HidInfoView>) -> Seq<(usize, usize)>
    decreases devices.len(),
{
    if devices.len() == 0 {
        Seq::empty()
    } else {
        let before = spec_preflight_targets(devices.drop_last());
        let last = devices.last();
        if last.vid == LOGITECH_VID && spec_is_candidate(last.usage_page, last.usage) {
            before.push(
                (
                    (spec_logitech_indices(devices.drop_last()).len() + 1) as usize,
                    (devices.len() - 1) as usize,
                ),
            )
        } else {
            before
        }
    }
}

proof fn lemma_logitech_indices_bound(devices: Seq<HidInfoView>)
    ensures
        spec_logitech_indices(devices).len() <= devices.len(),
        forall|k: int|
            0 <= k < spec_logitech_indices(devices).len() ==> #[trigger] spec_logitech_indices(
                devices,
            )[k] < devices.len(),
    decreases devices.len(),
{
    if devices.len() > 0 {
        lemma_logitech_indices_bound(devices.drop_last());
    }
}

/// The fresh record of a Logitech interface numbered `number`, as `new_interface` builds it.
pub open spec fn is_new_interface(r: Interface, number: int, info: HidInfoView) -> bool {
    &&& r.number == number
    &&& r.vid == info.vid
    &&& r.pid == info.pid
    &&& r.product@ == spec_label(info.product)
    &&& r.manufacturer@ == spec_label(info.manufacturer)
    &&& r.interface_number == info.interface_number
    &&& r.usage_page == info.usage_page
    &&& r.usage == info.usage
    &&& r.candidate == spec_is_candidate(info.usage_page, info.usage)
    &&& r.descriptor_bytes is None
    &&& r.open_error is None
    &&& r.endpoints@.len() == 0
}

/// The interfaces a scan reports, before any is opened: one per Logitech device, in
/// enumeration order and numbered from 1, each with the position of its device in `devices`.
pub fn logitech_interfaces(devices: &[HidInfo]) -> (r: Vec<(usize, Interface)>)
    ensures
        r@.len() == spec_logitech_indices(devices@.map_values(|d: HidInfo| d@)).len(),
        forall|k: int|
            0 <= k < r@.len() ==> {
                let index = spec_logitech_indices(devices@.map_values(|d: HidInfo| d@))[k];
                &&& #[trigger] r@[k].0 == index
                &&& index < devices@.len()
                &&& is_new_interface(r@[k].1, k + 1, devices@[index as int]@)
            },
{
    let ghost all = devices@.map_values(|d: HidInfo| d@);
    let mut r: Vec<(usize, Interface)> = Vec::new();
    let mut i: usize = 0;
    while i < devices.len()
        invariant
            i <= devices@.len(),
            all == devices@.map_values(|d: HidInfo| d@),
            r@.len() == spec_logitech_indices(all.take(i as int)).len(),
            forall|k: int|
                0 <= k < r@.len() ==> {
                    let index = spec_logitech_indices(all.take(i as int))[k];
                    &&& #[trigger] r@[k].0 == index
                    &&& index < i
                    &&& is_new_interface(r@[k].1, k + 1, devices@[index as int]@)
                },
        decreases devices@.len() - i,
    {
        proof {
            assert(all.take(i + 1).drop_last() =~= all.take(i as int));
            lemma_logitech_indices_bound(all.take(i as int));
        }
        let ghost before = r@;
        let ghost prefix = all.take(i + 1);
        assert(prefix.last() == devices@[i as int]@);
        if devices[i].vid == LOGITECH_VID {
            let interface = new_interface(r.len() + 1, &devices[i]);
            let ghost entry = (i, interface);
            assert(is_new_interface(entry.1, before.len() + 1 as int, devices@[i as int]@));
            r.push((i, interface));
            assert(r@ == before.push(entry));
            assert(spec_logitech_indices(prefix) == spec_logitech_indices(all.take(i as int)).push(i));
        } else {
            assert(spec_logitech_indices(prefix) == spec_logitech_indices(all.take(i as int)));
        }
        assert forall|k: int| 0 <= k < r@.len() implies {
            let index = spec_logitech_indices(prefix)[k];
            &&& #[trigger] r@[k].0 == index
            &&& index < i + 1
            &&& is_new_interface(r@[k].1, k + 1, devices@[index as int]@)
        } by {
            if k < before.len() {
                assert(r@[k] == before[k]);
                assert(before[k].0 == spec_logitech_indices(all.take(i as int))[k]);
                assert(spec_logitech_indices(prefix)[k] == spec_logitech_indices(all.take(i as int))[k]);
            } else {
                assert(r@[k] == r@.last());
            }
        }
        i = i + 1;
    }
    proof {
        assert(all.take(devices@.len() as int) =~= all);
    }
    r
}

/// The HID++ candidates a unique DPI write preflights: each as its interface number and the
/// position of its device in `devices`.
pub fn preflight_targets(devices: &[HidInfo]) -> (r: Vec<(usize, usize)>)
    ensures
        r@ == spec_preflight_targets(devices@.map_values(|d: HidInfo| d@)),
{
    let ghost all = devices@.map_values(|d: HidInfo| d@);
    let mut r: Vec<(usize, usize)> = Vec::new();
    let mut count: usize = 0;
    let mut i: usize = 0;
    while i < devices.len()
        invariant
            i <= devices@.len(),
            all == devices@.map_values(|d: HidInfo| d@),
            r@ == spec_preflight_targets(all.take(i as int)),
            count == spec_logitech_indices(all.take(i as int)).len(),
            count <= i,
        decreases devices@.len() - i,
    {
        proof {
            assert(all.take(i + 1).drop_last() =~= all.take(i as int));
            lemma_logitech_indices_bound(all.take(i as int));
        }
        let info = &devices[i];
        if info.vid == LOGITECH_VID {
            if is_candidate(info.usage_page, info.usage) {
                r.push((count + 1, i));
            }
            count = count + 1;
        }
        i = i + 1;
    }
    proof {
        assert(all.take(devices@.len() as int) =~= all);
    }
    r
}

/// The record a scan starts for the `number`th enumerated Logitech interface, before any
/// endpoint is probed.
pub fn new_interface(number: usize, info: &HidInfo) -> (r: Interface)
    ensures
        r.number == number,
        r.vid == info.vid,
        r.pid == info.pid,
        r.product@ == spec_label(info@.product),
        r.manufacturer@ == spec_label(info@.manufacturer),
        r.interface_number == info.interface_number,
        r.usage_page == info.usage_page,
        r.usage == info.usage,
        r.candidate == spec_is_candidate(info.usage_page, info.usage),
        r.descriptor_bytes is None,
        r.open_error is None,
        r.endpoints@.len() == 0,
{
    Interface {
        number,
        vid: info.vid,
        pid: info.pid,
        product: label(&info.product),
        manufacturer: label(&info.manufacturer),
        interface_number: info.interface_number,
        usage_page: info.usage_page,
        usage: info.usage,
        candidate: is_candidate(info.usage_page, info.usage),
        descriptor_bytes: None,
        open_error: None,
        endpoints: Vec::new(),
    }
}

/// A report-descriptor length is kept only when the read filled part, but not all, of the buffer.
pub fn descriptor_length(read: Option<usize>, capacity: usize) -> (r: Option<usize>)
    ensures
        r == (match read {
            Some(n) => if 0 < n < capacity {
                Some(n)
            } else {
                None
            },
            None => None,
        }),
{
    match read {
        Some(n) => if 0 < n && n < capacity {
            Some(n)
        } else {
            None
        },
        None => None,
    }
}

pub open spec fn slot_id(info: HidInfoView, index: u8) -> Seq<char> {
    spec_opaque_device_id(info.path, info.vid, info.pid, info.interface_number, info.usage_page, info.usage, index)
}

pub open spec fn scanned_at(
    log: Seq<Call>,
    bounds: Seq<int>,
    info: HidInfoView,
    options: ScanOptions,
    endpoints: Seq<Endpoint>,
    j: int,
) -> bool {
    &&& 0 <= bounds[j] <= bounds[j + 1] <= log.len()
    &&& endpoints[j].index == PROBE_INDICES@[j]
    &&& endpoints[j].opaque_id@ == slot_id(info, PROBE_INDICES@[j])
    &&& spec_scan_endpoint(segment(log, bounds, j), PROBE_INDICES@[j], options, endpoints[j])
}

/// `log` scans the first `endpoints.len()` probe slots of one interface, in order.
pub open spec fn scanned(
    log: Seq<Call>,
    bounds: Seq<int>,
    info: HidInfoView,
    options: ScanOptions,
    endpoints: Seq<Endpoint>,
) -> bool {
    &&& bounds.len() == endpoints.len() + 1
    &&& bounds[0] == 0
    &&& bounds[endpoints.len() as int] == log.len()
    &&& endpoints.len() <= PROBE_INDICES@.len()
    &&& forall|j: int| 0 <= j < endpoints.len() ==> #[trigger] scanned_at(log, bounds, info, options, endpoints, j)
}

/// Scans every probe slot of one opened candidate interface. Every request is a read.
#[verifier::rlimit(30)]
pub fn scan_endpoints<E: Exchange>(transport: &mut Recorded<E>, info: &HidInfo, options: ScanOptions) -> (r: (
    Vec<Endpoint>,
    Ghost<Seq<int>>,
))
    ensures
        extends(old(transport).calls(), final(transport).calls()),
        r.0@.len() == PROBE_INDICES@.len(),
        scanned(new_calls(old(transport).calls(), final(transport).calls()), r.1@, info@, options, r.0@),
        no_writes(new_calls(old(transport).calls(), final(transport).calls())),
{
    let ghost start = transport.calls();
    let mut endpoints: Vec<Endpoint> = Vec::new();
    let ghost mut bounds: Seq<int> = seq![0int];
    let mut k: usize = 0;
    proof {
        lemma_extends_refl(start);
    }
    while k < PROBE_INDICES.len()
        invariant
            k <= PROBE_INDICES@.len(),
            endpoints@.len() == k,
            extends(start, transport.calls()),
            scanned(new_calls(start, transport.calls()), bounds, info@, options, endpoints@),
            no_writes(new_calls(start, transport.calls())),
        decreases PROBE_INDICES@.len() - k,
    {
        let ghost before = transport.calls();
        let ghost old_bounds = bounds;
        let ghost old_endpoints = endpoints@;
        let index = PROBE_INDICES[k];
        let opaque_id = opaque_device_id(
            info.path.as_slice(),
            info.vid,
            info.pid,
            info.interface_number,
            info.usage_page,
            info.usage,
            index,
        );
        let endpoint = scan_endpoint(transport, index, opaque_id, options);
        endpoints.push(endpoint);
        proof {
            let now = transport.calls();
            lemma_extends_concat(start, before, now);
            let old_log = new_calls(start, before);
            let seg = new_calls(before, now);
            let log = new_calls(start, now);
            assert(log =~= old_log + seg);
            bounds = old_bounds.push(log.len() as int);
            assert forall|j: int| 0 <= j < k + 1 implies #[trigger] scanned_at(
                log,
                bounds,
                info@,
                options,
                endpoints@,
                j,
            ) by {
                if j < k {
                    assert(scanned_at(old_log, old_bounds, info@, options, old_endpoints, j));
                    assert(segment(log, bounds, j) =~= segment(old_log, old_bounds, j));
                    assert(endpoints@[j] == old_endpoints[j]);
                } else {
                    assert(segment(log, bounds, j) =~= seg);
                }
            }
            hidpp::lemma_no_writes_concat(old_log, seg);
        }
        k = k + 1;
    }
    (endpoints, Ghost(bounds))
}


/// Everything a write report names: the endpoint written and what the write did.
#[derive(Debug, Clone, PartialEq, Eq)]
pub struct DpiSetReport {
    pub interface_number: usize,
    pub vid: u16,
    pub pid: u16,
    pub product: String,
    pub device_index: u8,
    pub feature_version: u8,
    pub previous: u16,
    pub requested: u16,
    pub outcome: dpi::SetDpiOutcome,
}

pub struct DpiSetReportView {
    pub interface_number: usize,
    pub vid: u16,
    pub pid: u16,
    pub product: Seq<char>,
    pub device_index: u8,
    pub feature_version: u8,
    pub previous: u16,
    pub requested: u16,
    pub outcome: dpi::SetDpiOutcome,
}

impl View for DpiSetReport {
    type V = DpiSetReportView;

    open spec fn view(&self) -> DpiSetReportView {
        DpiSetReportView {
            interface_number: self.interface_number,
            vid: self.vid,
            pid: self.pid,
            product: self.product@,
            device_index: self.device_index,
            feature_version: self.feature_version,
            previous: self.previous,
            requested: self.requested,
            outcome: self.outcome,
        }
    }
}

#[derive(Debug, Clone, Copy, PartialEq, Eq, Structural)]
pub enum FastDpiError {
    Unsupported,
    Invalidated,
}

#[derive(Debug, Clone, PartialEq, Eq)]
pub struct FastDpiSetResult {
    pub report: DpiSetReport,
    pub target_valid: bool,
}

pub struct FastDpiSetResultView {
    pub report: DpiSetReportView,
    pub target_valid: bool,
}

pub open spec fn fast_result_view(r: Result<FastDpiSetResult, FastDpiError>) -> Result<FastDpiSetResultView, FastDpiError> {
    match r {
        Ok(v) => Ok(FastDpiSetResultView { report: v.report@, target_valid: v.target_valid }),
        Err(e) => Err(e),
    }
}

/// A previously unique DPI endpoint, kept in memory only: the HID path is never shown or saved.
pub struct ValidatedDpiTarget {
    path: Vec<u8>,
    identity: DpiTargetIdentity,
}

pub struct ValidatedDpiTargetView {
    pub path: Seq<u8>,
    pub identity: DpiTargetIdentityView,
}

impl View for ValidatedDpiTarget {
    type V = ValidatedDpiTargetView;

    closed spec fn view(&self) -> ValidatedDpiTargetView {
        ValidatedDpiTargetView { path: self.path@, identity: self.identity@ }
    }
}

fn clone_bytes(v: &Vec<u8>) -> (r: Vec<u8>)
    ensures
        r@ == v@,
{
    let mut out: Vec<u8> = Vec::new();
    let mut i: usize = 0;
    while i < v.len()
        invariant
            i <= v@.len(),
            out@ == v@.take(i as int),
        decreases v@.len() - i,
    {
        out.push(v[i]);
        i = i + 1;
        assert(out@ =~= v@.take(i as int));
    }
    assert(v@.take(v@.len() as int) =~= v@);
    out
}

impl Clone for ValidatedDpiTarget {
    fn clone(&self) -> (r: Self)
        ensures
            r@ == self@,
    {
        ValidatedDpiTarget { path: clone_bytes(&self.path), identity: self.identity.clone() }
    }
}

impl ValidatedDpiTarget {
    pub fn device_id(&self) -> (r: &str)
        ensures
            r@ == self@.identity.device_id,
    {
        self.identity.device_id.as_str()
    }

    /// Whether the target's sensor reported `requested` as writable when it was validated.
    pub fn supports_dpi(&self, requested: u16) -> (r: bool)
        ensures
            r == dpi::spec_supports_dpi(self@.identity.sensor.supported, requested),
    {
        dpi::supports_dpi(&self.identity.sensor.supported, requested)
    }
}

/// Enumerated metadata that still describes the target's interface.
pub open spec fn info_matches_identity(info: HidInfoView, identity: DpiTargetIdentityView) -> bool {
    spec_identity_matches_info(
        identity,
        info.vid,
        info.pid,
        info.interface_number,
        info.usage_page,
        info.usage,
        spec_label(info.product),
    )
}

/// The enumerated interface a target is looked for in: found by its opaque ID when the path is
/// not known yet, by the path it was found at once it is.
pub open spec fn device_pred(identity: DpiTargetIdentityView, path: Option<Seq<u8>>) -> spec_fn(
    HidInfoView,
) -> bool {
    |info: HidInfoView|
        info_matches_identity(info, identity) && match path {
            None => slot_id(info, identity.device_index) == identity.device_id,
            Some(p) => info.path == p,
        }
}

/// Element `k` of `s`, and no other, satisfies `p`.
pub open spec fn only_match(s: Seq<HidInfoView>, p: spec_fn(HidInfoView) -> bool, k: int) -> bool {
    &&& 0 <= k < s.len()
    &&& p(s[k])
    &&& forall|j: int| 0 <= j < s.len() && #[trigger] p(s[j]) ==> j == k
}

/// The index of the only element satisfying `p`, when exactly one does.
pub open spec fn unique_match(s: Seq<HidInfoView>, p: spec_fn(HidInfoView) -> bool) -> Option<int> {
    if exists|k: int| #[trigger] only_match(s, p, k) {
        Some(choose|k: int| #[trigger] only_match(s, p, k))
    } else {
        None
    }
}

fn device_matches(info: &HidInfo, identity: &DpiTargetIdentity, path: Option<&[u8]>) -> (r: bool)
    ensures
        r == device_pred(identity@, path_view(path))(info@),
{
    let product = label(&info.product);
    if !identity_matches_info(
        identity,
        info.vid,
        info.pid,
        info.interface_number,
        info.usage_page,
        info.usage,
        product.as_str(),
    ) {
        return false;
    }
    match path {
        None => {
            let id = opaque_device_id(
                info.path.as_slice(),
                info.vid,
                info.pid,
                info.interface_number,
                info.usage_page,
                info.usage,
                identity.device_index,
            );
            str_eq(id.as_str(), identity.device_id.as_str())
        },
        Some(p) => bytes_eq(info.path.as_slice(), p),
    }
}

fn bytes_eq(a: &[u8], b: &[u8]) -> (r: bool)
    ensures
        r == (a@ == b@),
{
    if a.len() != b.len() {
        return false;
    }
    let mut i: usize = 0;
    while i < a.len()
        invariant
            a@.len() == b@.len(),
            i <= a@.len(),
            forall|j: int| 0 <= j < i ==> a@[j] == b@[j],
        decreases a@.len() - i,
    {
        if a[i] != b[i] {
            assert(a@[i as int] != b@[i as int]);
            return false;
        }
        i = i + 1;
    }
    assert(a@ =~= b@);
    true
}

proof fn lemma_two_matches(s: Seq<HidInfoView>, p: spec_fn(HidInfoView) -> bool, a: int, b: int)
    requires
        0 <= a < s.len(),
        0 <= b < s.len(),
        a != b,
        p(s[a]),
        p(s[b]),
    ensures
        unique_match(s, p) is None,
{
    if exists|k: int| #[trigger] only_match(s, p, k) {
        let k = choose|k: int| #[trigger] only_match(s, p, k);
        assert(only_match(s, p, k));
        assert(a == k);
        assert(b == k);
    }
}

proof fn lemma_no_match(s: Seq<HidInfoView>, p: spec_fn(HidInfoView) -> bool)
    requires
        forall|j: int| 0 <= j < s.len() ==> !p(#[trigger] s[j]),
    ensures
        unique_match(s, p) is None,
{
    if exists|k: int| #[trigger] only_match(s, p, k) {
        let k = choose|k: int| #[trigger] only_match(s, p, k);
        assert(only_match(s, p, k));
        assert(!p(s[k]));
    }
}

proof fn lemma_one_match(s: Seq<HidInfoView>, p: spec_fn(HidInfoView) -> bool, f: int)
    requires
        0 <= f < s.len(),
        p(s[f]),
        forall|j: int| 0 <= j < s.len() && p(#[trigger] s[j]) ==> j == f,
    ensures
        unique_match(s, p) == Some(f),
{
    assert(only_match(s, p, f));
    let k = choose|k: int| #[trigger] only_match(s, p, k);
    assert(only_match(s, p, k));
    assert(k == f);
}

pub open spec fn path_view(path: Option<&[u8]>) -> Option<Seq<u8>> {
    match path {
        Some(p) => Some(p@),
        None => None,
    }
}

fn unique_device(infos: &[HidInfo], identity: &DpiTargetIdentity, path: Option<&[u8]>) -> (r: Option<usize>)
    ensures
        match r {
            Some(i) => unique_match(infos_view(infos@), device_pred(identity@, path_view(path))) == Some(i as int),
            None => unique_match(infos_view(infos@), device_pred(identity@, path_view(path))) is None,
        },
{
    let ghost p = device_pred(identity@, path_view(path));
    let ghost s = infos_view(infos@);
    let mut found: Option<usize> = None;
    let mut i: usize = 0;
    while i < infos.len()
        invariant
            i <= infos@.len(),
            s == infos_view(infos@),
            p == device_pred(identity@, path_view(path)),
            match found {
                None => forall|j: int| 0 <= j < i ==> !p(#[trigger] s[j]),
                Some(f) => f < i && p(s[f as int]) && forall|j: int| 0 <= j < i && p(#[trigger] s[j]) ==> j == f,
            },
        decreases infos@.len() - i,
    {
        let hit = device_matches(&infos[i], identity, path);
        assert(hit == p(s[i as int]));
        if hit {
            match found {
                Some(f) => {
                    proof {
                        lemma_two_matches(s, p, f as int, i as int);
                    }
                    return None;
                },
                None => {
                    found = Some(i);
                },
            }
        }
        i = i + 1;
    }
    match found {
        None => {
            proof {
                lemma_no_match(s, p);
            }
            None
        },
        Some(f) => {
            proof {
                lemma_one_match(s, p, f as int);
            }
            Some(f)
        },
    }
}

/// The fast-path target a complete DPI scan yields: the identity a unique (or uniquely
/// selected) 0x2201 endpoint has, located at the only enumerated interface that matches it.
pub open spec fn spec_validated_dpi_target(
    interfaces: Seq<Interface>,
    selected: Option<Seq<char>>,
    infos: Seq<HidInfoView>,
) -> Option<ValidatedDpiTargetView> {
    match spec_dpi_identities(interfaces) {
        None => None,
        Some(ids) => match spec_select(ids, selected) {
            None => None,
            Some(identity) => match unique_match(infos, device_pred(identity, None)) {
                None => None,
                Some(i) => Some(ValidatedDpiTargetView { path: infos[i].path, identity }),
            },
        },
    }
}

pub open spec fn target_option_view(r: Option<ValidatedDpiTarget>) -> Option<ValidatedDpiTargetView> {
    match r {
        Some(t) => Some(t@),
        None => None,
    }
}

/// Creates an in-memory fast-path target only from a complete, unique DPI scan.
/// The HID path is deliberately private and is never persisted or displayed.
pub fn validated_dpi_target(interfaces: &[Interface], selected_device: Option<&str>, devices: &[HidInfo]) -> (r:
    Option<ValidatedDpiTarget>)
    ensures
        target_option_view(r) == spec_validated_dpi_target(interfaces@, str_option_view(selected_device), infos_view(devices@)),
{
    let identities = match dpi_identities(interfaces) {
        Some(ids) => ids,
        None => return None,
    };
    let identity = match select_dpi_identity(identities, selected_device) {
        Some(identity) => identity,
        None => return None,
    };
    let index = match unique_device(devices, &identity, None) {
        Some(i) => i,
        None => return None,
    };
    assert(infos_view(devices@)[index as int] == devices@[index as int]@);
    Some(ValidatedDpiTarget { path: clone_bytes(&devices[index].path), identity })
}

/// The enumerated interface a fast write reopens: the only one at the target's path that still
/// shows the target's metadata.
pub fn find_target_device(target: &ValidatedDpiTarget, devices: &[HidInfo]) -> (r: Option<usize>)
    ensures
        r matches Some(i) ==> unique_match(infos_view(devices@), device_pred(target@.identity, Some(target@.path)))
            == Some(i as int),
        r is None ==> unique_match(infos_view(devices@), device_pred(target@.identity, Some(target@.path))) is None,
{
    unique_device(devices, &target.identity, Some(target.path.as_slice()))
}

/// A battery-only scan can preserve the target only when the unique 0x2201
/// endpoint still has the same public HID and HID++ identity.
pub fn validated_target_matches_scan(target: &ValidatedDpiTarget, interfaces: &[Interface]) -> (r: bool)
    ensures
        r == spec_identity_matches_scan(target@.identity, endpoints_of(interfaces@)),
{
    identity_matches_scan(&target.identity, interfaces)
}


/// At most one request of `log` calls function 3.
pub open spec fn at_most_one_write(log: Seq<Call>) -> bool {
    forall|i: int, j: int|
        0 <= i < log.len() && 0 <= j < log.len() && (#[trigger] log[i]).function == 3 && (#[trigger] log[j]).function == 3
            ==> i == j
}

proof fn lemma_reads_then_write(pre: Seq<Call>, w: Seq<Call>)
    requires
        no_writes(pre),
        forall|i: int| 0 <= i < w.len() && (#[trigger] w[i]).function == 3 ==> i == 0,
    ensures
        at_most_one_write(pre + w),
        forall|i: int| 0 <= i < (pre + w).len() && (#[trigger] (pre + w)[i]).function == 3 ==> i == pre.len(),
{
    let log = pre + w;
    assert forall|i: int| 0 <= i < log.len() && (#[trigger] log[i]).function == 3 implies i == pre.len() by {
        if i < pre.len() {
            assert(log[i] == pre[i]);
        } else {
            assert(log[i] == w[i - pre.len()]);
        }
    }
}

/// The report of a write to the target's endpoint.
pub open spec fn target_report(
    identity: DpiTargetIdentityView,
    feature: Feature,
    previous: u16,
    requested: u16,
    outcome: dpi::SetDpiOutcome,
) -> DpiSetReportView {
    DpiSetReportView {
        interface_number: identity.interface_number,
        vid: identity.vid,
        pid: identity.pid,
        product: identity.product,
        device_index: identity.device_index,
        feature_version: feature.version,
        previous,
        requested,
        outcome,
    }
}

/// The DPI a write outcome shows the sensor at, when a readback confirmed the requested value.
pub open spec fn confirmed_current(outcome: dpi::SetDpiOutcome) -> Option<u16> {
    match outcome {
        dpi::SetDpiOutcome::Verified { current } => Some(current),
        dpi::SetDpiOutcome::TimedOutConfirmed { current } => Some(current),
        _ => None,
    }
}

/// The target after a write: a confirmed value becomes its current DPI.
pub open spec fn after_write(t: ValidatedDpiTargetView, outcome: dpi::SetDpiOutcome) -> ValidatedDpiTargetView {
    match confirmed_current(outcome) {
        Some(current) => ValidatedDpiTargetView {
            identity: DpiTargetIdentityView {
                sensor: dpi::SensorDpiView { current, ..t.identity.sensor },
                ..t.identity
            },
            ..t
        },
        None => t,
    }
}

/// The write that follows a successful revalidation, and what it gives.
pub open spec fn fast_write(
    log: Seq<Call>,
    t: ValidatedDpiTargetView,
    feature: Feature,
    sensor: dpi::SensorDpiView,
    requested: u16,
    r: Result<FastDpiSetResultView, FastDpiError>,
    t2: ValidatedDpiTargetView,
) -> bool {
    exists|out: Result<dpi::SetDpiOutcome, dpi::SetDpiError>|
        #[trigger] dpi::spec_set_and_verify(log, t.identity.device_index, feature, 1, sensor, requested, out)
            && match out {
            Err(_) => r == Err::<FastDpiSetResultView, FastDpiError>(FastDpiError::Invalidated) && t2 == t,
            Ok(outcome) => {
                &&& r == Ok::<FastDpiSetResultView, FastDpiError>(
                    FastDpiSetResultView {
                        report: target_report(t.identity, feature, sensor.current, requested, outcome),
                        target_valid: spec_outcome_keeps_target(outcome),
                    },
                )
                &&& t2 == after_write(t, outcome)
            },
        }
}

/// The DPI read of the revalidation, and what follows it.
pub open spec fn fast_after_lookup(
    rest: Seq<Call>,
    m: int,
    t: ValidatedDpiTargetView,
    feature: Feature,
    requested: u16,
    r: Result<FastDpiSetResultView, FastDpiError>,
    t2: ValidatedDpiTargetView,
) -> bool {
    exists|sensors: Result<Seq<dpi::SensorDpiView>, Error>, b: int|
        #![trigger dpi::spec_dpi_read(rest.subrange(m, b), t.identity.device_index, feature, sensors)]
        {
            &&& m <= b <= rest.len()
            &&& dpi::spec_dpi_read(rest.subrange(m, b), t.identity.device_index, feature, sensors)
            &&& match sensors {
                Ok(list) => if spec_revalidation_matches(t.identity, feature, list) {
                    fast_write(rest.skip(b), t, feature, list[0], requested, r, t2)
                } else {
                    b == rest.len() && r == Err::<FastDpiSetResultView, FastDpiError>(
                        FastDpiError::Invalidated,
                    ) && t2 == t
                },
                Err(_) => b == rest.len() && r == Err::<FastDpiSetResultView, FastDpiError>(
                    FastDpiError::Invalidated,
                ) && t2 == t,
            }
        }
}

/// Everything a fast write sends and gives. An unsupported value sends nothing. Otherwise a
/// fresh ping, a `0x2201` lookup and a DPI read must show the same endpoint, feature and sole
/// sensor as the target before the one `setSensorDpi` request; any mismatch or failure on the
/// way invalidates the target.
pub open spec fn spec_fast_set(
    log: Seq<Call>,
    t: ValidatedDpiTargetView,
    requested: u16,
    r: Result<FastDpiSetResultView, FastDpiError>,
    t2: ValidatedDpiTargetView,
) -> bool {
    if !dpi::spec_supports_dpi(t.identity.sensor.supported, requested) {
        log.len() == 0 && r == Err::<FastDpiSetResultView, FastDpiError>(FastDpiError::Unsupported) && t2 == t
    } else {
        let device = t.identity.device_index;
        let n = read_only_len(log);
        let rest = log.skip(n);
        let m = read_only_len(rest);
        &&& read_only_step(log, device, 0, 1, seq![0u8, 0u8, hidpp::PING])
        &&& if !is_feature_protocol(hidpp::spec_probe(read_only_reply(log))) {
            log.len() == n && r == Err::<FastDpiSetResultView, FastDpiError>(FastDpiError::Invalidated) && t2 == t
        } else {
            &&& read_only_step(rest, device, 0, 0, feature_id_bytes(0x2201))
            &&& match hidpp::spec_discover(0x2201, read_only_reply(rest)) {
                Ok(Some(feature)) => fast_after_lookup(rest, m, t, feature, requested, r, t2),
                _ => rest.len() == m && r == Err::<FastDpiSetResultView, FastDpiError>(
                    FastDpiError::Invalidated,
                ) && t2 == t,
            }
        }
    }
}

/// Revalidates one previously unique target over a freshly opened transport, then writes.
/// Every identity and capability check occurs before the single possible fn3 request.
#[verifier::rlimit(30)]
pub fn set_validated_runtime_dpi<E: Exchange>(
    target: &mut ValidatedDpiTarget,
    transport: &mut Recorded<E>,
    requested: u16,
) -> (r: Result<FastDpiSetResult, FastDpiError>)
    ensures
        extends(old(transport).calls(), final(transport).calls()),
        spec_fast_set(
            new_calls(old(transport).calls(), final(transport).calls()),
            old(target)@,
            requested,
            fast_result_view(r),
            final(target)@,
        ),
        at_most_one_write(new_calls(old(transport).calls(), final(transport).calls())),
        r is Err ==> final(target)@ == old(target)@,
{
    let ghost l0 = transport.calls();
    let ghost t0 = target@;
    proof {
        lemma_extends_refl(l0);
    }
    if !dpi::supports_dpi(&target.identity.sensor.supported, requested) {
        return Err(FastDpiError::Unsupported);
    }
    let device = target.identity.device_index;
    let protocol = hidpp::probe(transport, device);
    let ghost l1 = transport.calls();
    let ghost p = new_calls(l0, l1);
    proof {
        hidpp::lemma_step_no_writes(p, device, 0, 1, seq![0u8, 0u8, hidpp::PING]);
    }
    if !is_feature(&protocol) {
        return Err(FastDpiError::Invalidated);
    }
    let found = hidpp::discover(transport, device, 0x2201);
    let ghost l2 = transport.calls();
    let ghost q = new_calls(l1, l2);
    proof {
        lemma_extends_concat(l0, l1, l2);
        assert(new_calls(l0, l2) =~= p + q);
        lemma_read_then(p, q, device, 0, 1, seq![0u8, 0u8, hidpp::PING]);
        assert(q.skip(0) =~= q);
        hidpp::lemma_step_no_writes(q, device, 0, 0, feature_id_bytes(0x2201));
        hidpp::lemma_no_writes_concat(p, q);
    }
    let feature = match found {
        Ok(Some(feature)) => feature,
        _ => {
            return Err(FastDpiError::Invalidated);
        },
    };
    let read = dpi::read(transport, device, feature);
    let ghost l3 = transport.calls();
    let ghost d = new_calls(l2, l3);
    proof {
        lemma_extends_concat(l0, l2, l3);
        lemma_extends_concat(l1, l2, l3);
        assert(new_calls(l0, l3) =~= p + (q + d));
        assert(new_calls(l1, l3) =~= q + d);
        lemma_read_then(p, q + d, device, 0, 1, seq![0u8, 0u8, hidpp::PING]);
        lemma_read_then(q, d, device, 0, 0, feature_id_bytes(0x2201));
        assert((q + d).subrange(q.len() as int, (q + d).len() as int) =~= d);
        dpi::lemma_dpi_read_no_writes(d, device, feature, dpi::sensors_result_view(read));
        hidpp::lemma_no_writes_concat(q, d);
        hidpp::lemma_no_writes_concat(p, q + d);
        assert(dpi::spec_dpi_read(
            (q + d).subrange(q.len() as int, (q + d).len() as int),
            device,
            feature,
            dpi::sensors_result_view(read),
        ));
    }
    let sensors = match read {
        Ok(sensors) => sensors,
        Err(_) => {
            return Err(FastDpiError::Invalidated);
        },
    };
    if !revalidation_matches(&target.identity, feature, sensors.as_slice()) {
        return Err(FastDpiError::Invalidated);
    }
    let previous = sensors[0].current;
    let written = dpi::set_and_verify(transport, device, feature, 1, &sensors[0], requested);
    let ghost l4 = transport.calls();
    let ghost w = new_calls(l3, l4);
    proof {
        lemma_extends_concat(l0, l3, l4);
        lemma_extends_concat(l1, l3, l4);
        assert(new_calls(l0, l4) =~= p + (q + d + w));
        assert(new_calls(l1, l4) =~= q + (d + w));
        lemma_read_then(p, q + d + w, device, 0, 1, seq![0u8, 0u8, hidpp::PING]);
        lemma_read_then(q, d + w, device, 0, 0, feature_id_bytes(0x2201));
        let rest = q + (d + w);
        let b: int = (q.len() + d.len()) as int;
        assert(rest.subrange(q.len() as int, b) =~= d);
        assert(rest.skip(b) =~= w);
        assert(p + (q + d + w) =~= (p + (q + d)) + w);
        lemma_reads_then_write(p + (q + d), w);
        assert(dpi::spec_dpi_read(rest.subrange(q.len() as int, b), device, feature, dpi::sensors_result_view(Ok::<Vec<dpi::SensorDpi>, Error>(sensors))));
        assert(dpi::sensors_view(sensors@)[0] == sensors@[0]@);
    }
    let outcome = match written {
        Ok(outcome) => outcome,
        Err(_) => {
            proof {
                assert(dpi::spec_set_and_verify(w, device, feature, 1, sensors@[0]@, requested, written));
            }
            return Err(FastDpiError::Invalidated);
        },
    };
    let target_valid = outcome_keeps_target(&outcome);
    match &outcome {
        dpi::SetDpiOutcome::Verified { current } | dpi::SetDpiOutcome::TimedOutConfirmed { current } => {
            target.identity.sensor.current = *current;
        },
        _ => {},
    }
    let report = DpiSetReport {
        interface_number: target.identity.interface_number,
        vid: target.identity.vid,
        pid: target.identity.pid,
        product: target.identity.product.clone(),
        device_index: target.identity.device_index,
        feature_version: feature.version,
        previous,
        requested,
        outcome,
    };
    proof {
        assert(dpi::spec_set_and_verify(w, device, feature, 1, sensors@[0]@, requested, written));
        assert(target@ == after_write(t0, outcome));
    }
    Ok(FastDpiSetResult { report, target_valid })
}


#[derive(Debug, Clone, PartialEq, Eq)]
pub enum DpiSetTargetError {
    Enumeration(Error),
    Preflight { interface_number: usize, device_index: u8, error: Error },
    MultipleSensors { interface_number: usize, device_index: u8, count: usize },
    UnsupportedFeature,
    NoWritableTarget,
    MultipleWritableTargets(usize),
    Write(dpi::SetDpiError),
}

/// What one probe slot contributes to a fresh preflight.
#[derive(Debug)]
pub enum SlotPreflight {
    /// No HID++ 2.x endpoint answered.
    NotFeature,
    /// A HID++ 2.x endpoint without `0x2201`.
    Unsupported,
    /// A HID++ 2.x endpoint with `0x2201` and exactly one sensor.
    Writable(Feature, dpi::SensorDpi),
}

pub enum SlotPreflightView {
    NotFeature,
    Unsupported,
    Writable(Feature, dpi::SensorDpiView),
}

pub open spec fn slot_view(r: Result<SlotPreflight, DpiSetTargetError>) -> Result<SlotPreflightView, DpiSetTargetError> {
    match r {
        Ok(SlotPreflight::NotFeature) => Ok(SlotPreflightView::NotFeature),
        Ok(SlotPreflight::Unsupported) => Ok(SlotPreflightView::Unsupported),
        Ok(SlotPreflight::Writable(f, s)) => Ok(SlotPreflightView::Writable(f, s@)),
        Err(e) => Err(e),
    }
}

/// The preflight read after a `0x2201` lookup found `feature`, and what it gives.
pub open spec fn slot_after_lookup(
    rest: Seq<Call>,
    m: int,
    interface_number: usize,
    device: u8,
    feature: Feature,
    r: Result<SlotPreflightView, DpiSetTargetError>,
) -> bool {
    exists|sensors: Result<Seq<dpi::SensorDpiView>, Error>|
        #[trigger] dpi::spec_dpi_read(rest.skip(m), device, feature, sensors) && match sensors {
            Err(e) => r == Err::<SlotPreflightView, DpiSetTargetError>(
                DpiSetTargetError::Preflight { interface_number, device_index: device, error: e },
            ),
            Ok(list) => if list.len() == 1 {
                r == Ok::<SlotPreflightView, DpiSetTargetError>(SlotPreflightView::Writable(feature, list[0]))
            } else {
                r == Err::<SlotPreflightView, DpiSetTargetError>(
                    DpiSetTargetError::MultipleSensors { interface_number, device_index: device, count: list.len() as usize },
                )
            },
        }
}

/// What a fresh preflight of one slot sends and gives: a ping; for a HID++ 2.x endpoint a
/// `0x2201` lookup; when found, a DPI read that must show exactly one sensor.
pub open spec fn spec_preflight_slot(
    log: Seq<Call>,
    interface_number: usize,
    device: u8,
    r: Result<SlotPreflightView, DpiSetTargetError>,
) -> bool {
    let n = read_only_len(log);
    let rest = log.skip(n);
    let m = read_only_len(rest);
    &&& read_only_step(log, device, 0, 1, seq![0u8, 0u8, hidpp::PING])
    &&& if !is_feature_protocol(hidpp::spec_probe(read_only_reply(log))) {
        log.len() == n && r == Ok::<SlotPreflightView, DpiSetTargetError>(SlotPreflightView::NotFeature)
    } else {
        &&& read_only_step(rest, device, 0, 0, feature_id_bytes(0x2201))
        &&& match hidpp::spec_discover(0x2201, read_only_reply(rest)) {
            Err(e) => rest.len() == m && r == Err::<SlotPreflightView, DpiSetTargetError>(
                DpiSetTargetError::Preflight {
                    interface_number,
                    device_index: device,
                    error: Error::Read { operation: "0x2201 fresh feature discovery", source: Box::new(e) },
                },
            ),
            Ok(None) => rest.len() == m && r == Ok::<SlotPreflightView, DpiSetTargetError>(
                SlotPreflightView::Unsupported,
            ),
            Ok(Some(feature)) => slot_after_lookup(rest, m, interface_number, device, feature, r),
        }
    }
}

/// Checks one probe slot without writing anything.
pub fn preflight_slot<E: Exchange>(transport: &mut Recorded<E>, interface_number: usize, device: u8) -> (r: Result<
    SlotPreflight,
    DpiSetTargetError,
>)
    ensures
        extends(old(transport).calls(), final(transport).calls()),
        spec_preflight_slot(new_calls(old(transport).calls(), final(transport).calls()), interface_number, device, slot_view(r)),
        no_writes(new_calls(old(transport).calls(), final(transport).calls())),
{
    let ghost l0 = transport.calls();
    let protocol = hidpp::probe(transport, device);
    let ghost l1 = transport.calls();
    let ghost p = new_calls(l0, l1);
    proof {
        hidpp::lemma_step_no_writes(p, device, 0, 1, seq![0u8, 0u8, hidpp::PING]);
    }
    if !is_feature(&protocol) {
        return Ok(SlotPreflight::NotFeature);
    }
    let found = hidpp::discover(transport, device, 0x2201);
    let ghost l2 = transport.calls();
    let ghost q = new_calls(l1, l2);
    proof {
        lemma_extends_concat(l0, l1, l2);
        assert(new_calls(l0, l2) =~= p + q);
        lemma_read_then(p, q, device, 0, 1, seq![0u8, 0u8, hidpp::PING]);
        hidpp::lemma_step_no_writes(q, device, 0, 0, feature_id_bytes(0x2201));
        hidpp::lemma_no_writes_concat(p, q);
    }
    let feature = match found {
        Err(error) => {
            return Err(
                DpiSetTargetError::Preflight {
                    interface_number,
                    device_index: device,
                    error: error.in_read("0x2201 fresh feature discovery"),
                },
            );
        },
        Ok(None) => {
            return Ok(SlotPreflight::Unsupported);
        },
        Ok(Some(feature)) => feature,
    };
    let read = dpi::read(transport, device, feature);
    let ghost l3 = transport.calls();
    let ghost d = new_calls(l2, l3);
    proof {
        lemma_extends_concat(l0, l2, l3);
        lemma_extends_concat(l1, l2, l3);
        assert(new_calls(l0, l3) =~= p + (q + d));
        assert(new_calls(l1, l3) =~= q + d);
        lemma_read_then(p, q + d, device, 0, 1, seq![0u8, 0u8, hidpp::PING]);
        lemma_read_then(q, d, device, 0, 0, feature_id_bytes(0x2201));
        dpi::lemma_dpi_read_no_writes(d, device, feature, dpi::sensors_result_view(read));
        hidpp::lemma_no_writes_concat(q, d);
        hidpp::lemma_no_writes_concat(p, q + d);
        assert(dpi::spec_dpi_read((q + d).skip(q.len() as int), device, feature, dpi::sensors_result_view(read)));
    }
    let sensors = match read {
        Err(error) => {
            return Err(DpiSetTargetError::Preflight { interface_number, device_index: device, error });
        },
        Ok(sensors) => sensors,
    };
    if sensors.len() != 1 {
        return Err(
            DpiSetTargetError::MultipleSensors { interface_number, device_index: device, count: sensors.len() },
        );
    }
    let sensor = sensors[0].clone();
    Ok(SlotPreflight::Writable(feature, sensor))
}


/// Counts kept across a fresh preflight: HID++ 2.x endpoints seen, and those without `0x2201`.
#[derive(Debug, Clone, Copy, PartialEq, Eq, Structural)]
pub struct PreflightTally {
    pub feature_endpoints: usize,
    pub unsupported_endpoints: usize,
}

/// A writable slot: its index, the `0x2201` feature and the sole sensor.
pub type SlotHit = (u8, Feature, dpi::SensorDpi);

pub type SlotHitView = (u8, Feature, dpi::SensorDpiView);

pub open spec fn hit_view(h: Option<SlotHit>) -> Option<SlotHitView> {
    match h {
        Some((index, feature, sensor)) => Some((index, feature, sensor@)),
        None => None,
    }
}

pub open spec fn interface_result_view(r: Result<Option<SlotHit>, DpiSetTargetError>) -> Result<
    Option<SlotHitView>,
    DpiSetTargetError,
> {
    match r {
        Ok(h) => Ok(hit_view(h)),
        Err(e) => Err(e),
    }
}

/// Where an interface's preflight stands after the first `outcomes.len()` slots: the counts,
/// the writable slot found so far, and the refusal that ends it, if any.
pub open spec fn slots_state(outcomes: Seq<Result<SlotPreflightView, DpiSetTargetError>>, tally: PreflightTally) -> (
    PreflightTally,
    Option<SlotHitView>,
    Option<DpiSetTargetError>,
)
    decreases outcomes.len(),
{
    if outcomes.len() == 0 {
        (tally, None, None)
    } else {
        let (t, found, _) = slots_state(outcomes.drop_last(), tally);
        let index = PROBE_INDICES@[outcomes.len() - 1];
        match outcomes.last() {
            Err(e) => (t, found, Some(e)),
            Ok(SlotPreflightView::NotFeature) => (t, found, None),
            Ok(SlotPreflightView::Unsupported) => (
                PreflightTally {
                    feature_endpoints: (t.feature_endpoints + 1) as usize,
                    unsupported_endpoints: (t.unsupported_endpoints + 1) as usize,
                },
                found,
                None,
            ),
            Ok(SlotPreflightView::Writable(feature, sensor)) => (
                PreflightTally { feature_endpoints: (t.feature_endpoints + 1) as usize, ..t },
                if found is Some {
                    found
                } else {
                    Some((index, feature, sensor))
                },
                if found is Some {
                    Some(DpiSetTargetError::MultipleWritableTargets(2))
                } else {
                    None
                },
            ),
        }
    }
}

/// `log` is the slot preflights of `outcomes`, in probe order, split at `bounds`.
pub open spec fn slots_logged(
    log: Seq<Call>,
    bounds: Seq<int>,
    interface_number: usize,
    outcomes: Seq<Result<SlotPreflightView, DpiSetTargetError>>,
) -> bool {
    &&& bounds.len() == outcomes.len() + 1
    &&& bounds[0] == 0
    &&& bounds[outcomes.len() as int] == log.len()
    &&& outcomes.len() <= PROBE_INDICES@.len()
    &&& forall|j: int|
        0 <= j < outcomes.len() ==> #[trigger] slot_logged(log, bounds, interface_number, outcomes, j)
}

pub open spec fn slot_logged(
    log: Seq<Call>,
    bounds: Seq<int>,
    interface_number: usize,
    outcomes: Seq<Result<SlotPreflightView, DpiSetTargetError>>,
    j: int,
) -> bool {
    &&& 0 <= bounds[j] <= bounds[j + 1] <= log.len()
    &&& spec_preflight_slot(segment(log, bounds, j), interface_number, PROBE_INDICES@[j], outcomes[j])
}

/// What checking one interface sends and gives: the slots are checked in probe order until one
/// is refused or all are done; the result is the refusal, or the writable slot if any.
pub open spec fn spec_preflight_interface(
    log: Seq<Call>,
    interface_number: usize,
    tally: PreflightTally,
    final_tally: PreflightTally,
    r: Result<Option<SlotHitView>, DpiSetTargetError>,
) -> bool {
    exists|bounds: Seq<int>, outcomes: Seq<Result<SlotPreflightView, DpiSetTargetError>>|
        #[trigger] slots_logged(log, bounds, interface_number, outcomes) && {
            let (t, found, stop) = slots_state(outcomes, tally);
            &&& forall|k: int| 0 <= k < outcomes.len() ==> (#[trigger] slots_state(outcomes.take(k), tally)).2 is None
            &&& (outcomes.len() == PROBE_INDICES@.len() || stop is Some)
            &&& final_tally == t
            &&& r == match stop {
                Some(e) => Err::<Option<SlotHitView>, DpiSetTargetError>(e),
                None => Ok::<Option<SlotHitView>, DpiSetTargetError>(found),
            }
        }
}

proof fn lemma_slots_state_bounds(outcomes: Seq<Result<SlotPreflightView, DpiSetTargetError>>, tally: PreflightTally)
    requires
        tally.unsupported_endpoints <= tally.feature_endpoints,
        tally.feature_endpoints + outcomes.len() <= usize::MAX,
        outcomes.len() <= PROBE_INDICES@.len(),
    ensures
        slots_state(outcomes, tally).0.unsupported_endpoints <= slots_state(outcomes, tally).0.feature_endpoints,
        tally.feature_endpoints <= slots_state(outcomes, tally).0.feature_endpoints <= tally.feature_endpoints
            + outcomes.len(),
        slots_state(outcomes, tally).1 matches Some(h) ==> PROBE_INDICES@.contains(h.0),
    decreases outcomes.len(),
{
    if outcomes.len() > 0 {
        lemma_slots_state_bounds(outcomes.drop_last(), tally);
        let index = PROBE_INDICES@[outcomes.len() - 1];
        assert(PROBE_INDICES@.contains(index));
    }
}

/// Checks every probe slot of one opened interface without writing anything. A second
/// writable slot on the same interface refuses the whole request.
#[verifier::rlimit(30)]
pub fn preflight_interface<E: Exchange>(
    transport: &mut Recorded<E>,
    interface_number: usize,
    tally: &mut PreflightTally,
) -> (r: Result<Option<SlotHit>, DpiSetTargetError>)
    requires
        old(tally).feature_endpoints <= usize::MAX - 7,
        old(tally).unsupported_endpoints <= old(tally).feature_endpoints,
    ensures
        extends(old(transport).calls(), final(transport).calls()),
        spec_preflight_interface(
            new_calls(old(transport).calls(), final(transport).calls()),
            interface_number,
            *old(tally),
            *final(tally),
            interface_result_view(r),
        ),
        no_writes(new_calls(old(transport).calls(), final(transport).calls())),
        final(tally).unsupported_endpoints <= final(tally).feature_endpoints,
        old(tally).feature_endpoints <= final(tally).feature_endpoints <= old(tally).feature_endpoints + 7,
        r matches Ok(Some(hit)) ==> PROBE_INDICES@.contains(hit.0),
{
    let ghost start = transport.calls();
    let ghost tally0 = *tally;
    proof {
        lemma_extends_refl(start);
    }
    let mut endpoint_target: Option<SlotHit> = None;
    let ghost mut bounds: Seq<int> = seq![0int];
    let ghost mut outcomes: Seq<Result<SlotPreflightView, DpiSetTargetError>> = Seq::empty();
    let mut k: usize = 0;
    while k < PROBE_INDICES.len()
        invariant
            k <= PROBE_INDICES@.len(),
            start == old(transport).calls(),
            tally0 == *old(tally),
            extends(start, transport.calls()),
            no_writes(new_calls(start, transport.calls())),
            tally0.feature_endpoints <= usize::MAX - 7,
            tally0.unsupported_endpoints <= tally0.feature_endpoints,
            outcomes.len() == k,
            slots_logged(new_calls(start, transport.calls()), bounds, interface_number, outcomes),
            slots_state(outcomes, tally0) == (*tally, hit_view(endpoint_target), None::<DpiSetTargetError>),
            forall|j: int| 0 <= j < outcomes.len() ==> (#[trigger] slots_state(outcomes.take(j), tally0)).2 is None,
        decreases PROBE_INDICES@.len() - k,
    {
        let ghost before = transport.calls();
        let ghost old_bounds = bounds;
        let ghost old_outcomes = outcomes;
        let index = PROBE_INDICES[k];
        let slot = preflight_slot(transport, interface_number, index);
        proof {
            let now = transport.calls();
            lemma_extends_concat(start, before, now);
            let old_log = new_calls(start, before);
            let seg = new_calls(before, now);
            let log = new_calls(start, now);
            assert(log =~= old_log + seg);
            hidpp::lemma_no_writes_concat(old_log, seg);
            bounds = old_bounds.push(log.len() as int);
            outcomes = old_outcomes.push(slot_view(slot));
            assert forall|j: int| 0 <= j < outcomes.len() implies #[trigger] slot_logged(
                log,
                bounds,
                interface_number,
                outcomes,
                j,
            ) by {
                if j < k {
                    assert(slot_logged(old_log, old_bounds, interface_number, old_outcomes, j));
                    assert(segment(log, bounds, j) =~= segment(old_log, old_bounds, j));
                    assert(outcomes[j] == old_outcomes[j]);
                } else {
                    assert(segment(log, bounds, j) =~= seg);
                }
            }
            assert(outcomes.drop_last() =~= old_outcomes);
            assert forall|j: int| 0 <= j < outcomes.len() implies (#[trigger] slots_state(outcomes.take(j), tally0)).2
                is None by {
                if j < k {
                    assert(outcomes.take(j) =~= old_outcomes.take(j));
                } else {
                    assert(outcomes.take(j) =~= old_outcomes);
                }
            }
            lemma_slots_state_bounds(old_outcomes, tally0);
        }
        let slot = match slot {
            Ok(slot) => slot,
            Err(e) => {
                proof {
                    assert(slots_state(outcomes, tally0).2 == Some(e));
                    assert(slots_logged(new_calls(start, transport.calls()), bounds, interface_number, outcomes));
                }
                return Err(e);
            },
        };
        match slot {
            SlotPreflight::NotFeature => {},
            SlotPreflight::Unsupported => {
                tally.feature_endpoints = tally.feature_endpoints + 1;
                tally.unsupported_endpoints = tally.unsupported_endpoints + 1;
            },
            SlotPreflight::Writable(feature, sensor) => {
                tally.feature_endpoints = tally.feature_endpoints + 1;
                if endpoint_target.is_some() {
                    proof {
                        assert(slots_state(outcomes, tally0) == (
                            *tally,
                            hit_view(endpoint_target),
                            Some(DpiSetTargetError::MultipleWritableTargets(2)),
                        ));
                        assert(slots_logged(new_calls(start, transport.calls()), bounds, interface_number, outcomes));
                    }
                    return Err(DpiSetTargetError::MultipleWritableTargets(2));
                }
                endpoint_target = Some((index, feature, sensor));
            },
        }
        k = k + 1;
    }
    proof {
        lemma_slots_state_bounds(outcomes, tally0);
        assert(slots_logged(new_calls(start, transport.calls()), bounds, interface_number, outcomes));
    }
    Ok(endpoint_target)
}

/// Which refusal, if any, the preflight counts call for: none and exactly one writable target.
pub open spec fn spec_target_choice(targets: nat, tally: PreflightTally) -> Option<DpiSetTargetError> {
    if targets == 0 {
        if tally.feature_endpoints > 0 && tally.unsupported_endpoints == tally.feature_endpoints {
            Some(DpiSetTargetError::UnsupportedFeature)
        } else {
            Some(DpiSetTargetError::NoWritableTarget)
        }
    } else if targets != 1 {
        Some(DpiSetTargetError::MultipleWritableTargets(targets as usize))
    } else {
        None
    }
}

pub fn target_choice(targets: usize, tally: PreflightTally) -> (r: Option<DpiSetTargetError>)
    ensures
        r == spec_target_choice(targets as nat, tally),
{
    if targets == 0 {
        if tally.feature_endpoints > 0 && tally.unsupported_endpoints == tally.feature_endpoints {
            Some(DpiSetTargetError::UnsupportedFeature)
        } else {
            Some(DpiSetTargetError::NoWritableTarget)
        }
    } else if targets != 1 {
        Some(DpiSetTargetError::MultipleWritableTargets(targets))
    } else {
        None
    }
}

/// One opened HID++ candidate interface for a fresh preflight.
pub struct PreflightCandidate<E> {
    pub interface_number: usize,
    pub vid: u16,
    pub pid: u16,
    pub product: String,
    pub transport: Recorded<E>,
}

/// The calls candidate `i` received during one request.
pub open spec fn candidate_log<E: Exchange>(
    before: Seq<PreflightCandidate<E>>,
    after: Seq<PreflightCandidate<E>>,
    i: int,
) -> Seq<Call> {
    new_calls(before[i].transport.calls(), after[i].transport.calls())
}

/// The writable slots found so far, with the position of their candidate, and the refusal
/// that ends the preflight, if any.
pub open spec fn candidates_state(results: Seq<Result<Option<SlotHitView>, DpiSetTargetError>>) -> (
    Seq<(int, SlotHitView)>,
    Option<DpiSetTargetError>,
)
    decreases results.len(),
{
    if results.len() == 0 {
        (Seq::empty(), None)
    } else {
        let (targets, _) = candidates_state(results.drop_last());
        match results.last() {
            Err(e) => (targets, Some(e)),
            Ok(None) => (targets, None),
            Ok(Some(hit)) => (targets.push(((results.len() - 1) as int, hit)), None),
        }
    }
}

pub open spec fn zero_tally() -> PreflightTally {
    PreflightTally { feature_endpoints: 0, unsupported_endpoints: 0 }
}

/// The preflight of the first `results.len()` candidates: interface by interface, in order,
/// each counted on from the one before.
pub open spec fn preflights<E: Exchange>(
    before: Seq<PreflightCandidate<E>>,
    pre: Seq<Seq<Call>>,
    tallies: Seq<PreflightTally>,
    results: Seq<Result<Option<SlotHitView>, DpiSetTargetError>>,
) -> bool {
    &&& results.len() <= before.len()
    &&& pre.len() == results.len()
    &&& tallies.len() == results.len() + 1
    &&& tallies[0] == zero_tally()
    &&& forall|j: int|
        0 <= j < results.len() ==> #[trigger] spec_preflight_interface(
            pre[j],
            before[j].interface_number,
            tallies[j],
            tallies[j + 1],
            results[j],
        )
    &&& forall|k: int| 0 <= k < results.len() ==> (#[trigger] candidates_state(results.take(k))).1 is None
}

/// The report of a write to candidate `c` at `hit`.
pub open spec fn candidate_report<E: Exchange>(
    c: PreflightCandidate<E>,
    hit: SlotHitView,
    requested: u16,
    outcome: dpi::SetDpiOutcome,
) -> DpiSetReportView {
    DpiSetReportView {
        interface_number: c.interface_number,
        vid: c.vid,
        pid: c.pid,
        product: c.product@,
        device_index: hit.0,
        feature_version: hit.1.version,
        previous: hit.2.current,
        requested,
        outcome,
    }
}

/// The candidates' calls: the preflight of each visited one, nothing for the others, and for
/// the chosen target (`Some`), its preflight followed by the write `w`.
pub open spec fn logs_match<E: Exchange>(
    before: Seq<PreflightCandidate<E>>,
    after: Seq<PreflightCandidate<E>>,
    pre: Seq<Seq<Call>>,
    chosen: Option<(int, Seq<Call>)>,
) -> bool {
    forall|j: int|
        0 <= j < before.len() ==> #[trigger] candidate_log(before, after, j) == if j < pre.len() {
            match chosen {
                Some((p, w)) => if p == j {
                    pre[j] + w
                } else {
                    pre[j]
                },
                None => pre[j],
            }
        } else {
            Seq::<Call>::empty()
        }
}

/// Everything a unique-target write sends and gives. Candidates are preflighted in order
/// until one refuses; then the counts decide between the refusals; only when exactly one
/// writable slot was found is that slot written, once.
pub open spec fn spec_unique_write<E: Exchange>(
    before: Seq<PreflightCandidate<E>>,
    after: Seq<PreflightCandidate<E>>,
    requested: u16,
    r: Result<DpiSetReportView, DpiSetTargetError>,
) -> bool {
    exists|pre: Seq<Seq<Call>>, tallies: Seq<PreflightTally>, results: Seq<Result<Option<SlotHitView>, DpiSetTargetError>>|
        #[trigger] preflights(before, pre, tallies, results) && {
            let (targets, stop) = candidates_state(results);
            match stop {
                Some(e) => logs_match(before, after, pre, None) && r == Err::<DpiSetReportView, DpiSetTargetError>(e),
                None => {
                    &&& results.len() == before.len()
                    &&& match spec_target_choice(targets.len(), tallies.last()) {
                        Some(e) => logs_match(before, after, pre, None) && r == Err::<
                            DpiSetReportView,
                            DpiSetTargetError,
                        >(e),
                        None => {
                            let (p, hit) = targets[0];
                            exists|w: Seq<Call>, out: Result<dpi::SetDpiOutcome, dpi::SetDpiError>|
                                #[trigger] dpi::spec_set_and_verify(w, hit.0, hit.1, 1, hit.2, requested, out)
                                    && logs_match(before, after, pre, Some((p, w))) && r == match out {
                                    Ok(outcome) => Ok::<DpiSetReportView, DpiSetTargetError>(
                                        candidate_report(before[p], hit, requested, outcome),
                                    ),
                                    Err(e) => Err::<DpiSetReportView, DpiSetTargetError>(
                                        DpiSetTargetError::Write(e),
                                    ),
                                }
                        },
                    }
                },
            }
        }
}

proof fn lemma_candidates_targets(results: Seq<Result<Option<SlotHitView>, DpiSetTargetError>>)
    ensures
        candidates_state(results).0.len() <= results.len(),
        forall|t: int|
            0 <= t < candidates_state(results).0.len() ==> 0 <= (#[trigger] candidates_state(results).0[t]).0
                < results.len() && results[candidates_state(results).0[t].0] == Ok::<
                Option<SlotHitView>,
                DpiSetTargetError,
            >(Some(candidates_state(results).0[t].1)),
    decreases results.len(),
{
    if results.len() > 0 {
        lemma_candidates_targets(results.drop_last());
        let (targets, _) = candidates_state(results.drop_last());
        assert forall|t: int| 0 <= t < targets.len() implies results[targets[t].0] == results.drop_last()[targets[t].0] by {}
    }
}

proof fn lemma_unique_written<E: Exchange>(
    before: Seq<PreflightCandidate<E>>,
    after: Seq<PreflightCandidate<E>>,
    requested: u16,
    r: Result<DpiSetReportView, DpiSetTargetError>,
    pre: Seq<Seq<Call>>,
    tallies: Seq<PreflightTally>,
    results: Seq<Result<Option<SlotHitView>, DpiSetTargetError>>,
    w: Seq<Call>,
    out: Result<dpi::SetDpiOutcome, dpi::SetDpiError>,
)
    requires
        preflights(before, pre, tallies, results),
        candidates_state(results).1 is None,
        results.len() == before.len(),
        spec_target_choice(candidates_state(results).0.len(), tallies.last()) is None,
        dpi::spec_set_and_verify(
            w,
            candidates_state(results).0[0].1.0,
            candidates_state(results).0[0].1.1,
            1,
            candidates_state(results).0[0].1.2,
            requested,
            out,
        ),
        logs_match(before, after, pre, Some((candidates_state(results).0[0].0, w))),
        r == match out {
            Ok(outcome) => Ok::<DpiSetReportView, DpiSetTargetError>(
                candidate_report(
                    before[candidates_state(results).0[0].0],
                    candidates_state(results).0[0].1,
                    requested,
                    outcome,
                ),
            ),
            Err(e) => Err::<DpiSetReportView, DpiSetTargetError>(DpiSetTargetError::Write(e)),
        },
    ensures
        spec_unique_write(before, after, requested, r),
{
}

/// Performs a fresh capability preflight across all candidates and sends a write only when
/// exactly one currently usable 0x2201 endpoint is found. A refused request sends no write, and
/// no request sends more than one.
#[verifier::rlimit(30)]
pub fn set_unique_runtime_dpi<E: Exchange>(candidates: &mut Vec<PreflightCandidate<E>>, requested: u16) -> (r:
    Result<DpiSetReport, DpiSetTargetError>)
    requires
        old(candidates)@.len() <= usize::MAX / 8,
    ensures
        final(candidates)@.len() == old(candidates)@.len(),
        forall|i: int|
            0 <= i < old(candidates)@.len() ==> {
                &&& (#[trigger] final(candidates)@[i]).interface_number == old(candidates)@[i].interface_number
                &&& final(candidates)@[i].vid == old(candidates)@[i].vid
                &&& final(candidates)@[i].pid == old(candidates)@[i].pid
                &&& final(candidates)@[i].product == old(candidates)@[i].product
                &&& extends(old(candidates)@[i].transport.calls(), final(candidates)@[i].transport.calls())
            },
        spec_unique_write(
            old(candidates)@,
            final(candidates)@,
            requested,
            match r {
                Ok(report) => Ok(report@),
                Err(e) => Err(e),
            },
        ),
        r matches Err(e) && !(e is Write) ==> forall|i: int|
            0 <= i < old(candidates)@.len() ==> no_writes(
                #[trigger] candidate_log(old(candidates)@, final(candidates)@, i),
            ),
        forall|i: int, j: int, k: int, l: int|
            0 <= i < old(candidates)@.len() && 0 <= j < old(candidates)@.len() && 0 <= k
                < candidate_log(old(candidates)@, final(candidates)@, i).len() && 0 <= l
                < candidate_log(old(candidates)@, final(candidates)@, j).len() && (#[trigger] candidate_log(
                old(candidates)@,
                final(candidates)@,
                i,
            )[k]).function == 3 && (#[trigger] candidate_log(old(candidates)@, final(candidates)@, j)[l]).function
                == 3 ==> i == j && k == l,
{
    let ghost start = candidates@;
    let mut tally = PreflightTally { feature_endpoints: 0, unsupported_endpoints: 0 };
    let mut targets: Vec<(usize, u8, Feature, dpi::SensorDpi)> = Vec::new();
    let ghost mut pre: Seq<Seq<Call>> = Seq::empty();
    let ghost mut tallies: Seq<PreflightTally> = seq![zero_tally()];
    let ghost mut results: Seq<Result<Option<SlotHitView>, DpiSetTargetError>> = Seq::empty();
    let mut i: usize = 0;
    proof {
        assert forall|j: int| 0 <= j < start.len() implies {
            &&& (#[trigger] candidates@[j]).interface_number == start[j].interface_number
            &&& candidates@[j].vid == start[j].vid
            &&& candidates@[j].pid == start[j].pid
            &&& candidates@[j].product == start[j].product
            &&& extends(start[j].transport.calls(), candidates@[j].transport.calls())
            &&& no_writes(candidate_log(start, candidates@, j))
        } by {
            lemma_extends_refl(start[j].transport.calls());
        }
        assert forall|j: int| 0 <= j < start.len() implies #[trigger] candidate_log(start, candidates@, j) == if j
            < pre.len() {
            pre[j]
        } else {
            Seq::<Call>::empty()
        } by {
            lemma_extends_refl(start[j].transport.calls());
        }
        assert(logs_match(start, candidates@, pre, None));
    }
    while i < candidates.len()
        invariant
            i <= candidates@.len(),
            start == old(candidates)@,
            candidates@.len() == start.len(),
            start.len() <= usize::MAX / 8,
            tally.feature_endpoints <= 7 * i,
            tally.unsupported_endpoints <= tally.feature_endpoints,
            results.len() == i,
            preflights(start, pre, tallies, results),
            tallies.last() == tally,
            candidates_state(results).1 is None,
            candidates_state(results).0.len() == targets@.len(),
            forall|t: int|
                0 <= t < targets@.len() ==> {
                    &&& (#[trigger] targets@[t]).0 < i
                    &&& candidates_state(results).0[t] == (
                        targets@[t].0 as int,
                        (targets@[t].1, targets@[t].2, targets@[t].3@),
                    )
                },
            logs_match(start, candidates@, pre, None),
            forall|j: int|
                0 <= j < start.len() ==> {
                    &&& (#[trigger] candidates@[j]).interface_number == start[j].interface_number
                    &&& candidates@[j].vid == start[j].vid
                    &&& candidates@[j].pid == start[j].pid
                    &&& candidates@[j].product == start[j].product
                    &&& extends(start[j].transport.calls(), candidates@[j].transport.calls())
                    &&& no_writes(candidate_log(start, candidates@, j))
                },
        decreases candidates@.len() - i,
    {
        let interface_number = candidates[i].interface_number;
        let ghost before = candidates@;
        let ghost tally_before = tally;
        let found = preflight_interface(&mut candidates[i].transport, interface_number, &mut tally);
        let ghost found_view = interface_result_view(found);
        proof {
            let bt = before[i as int].transport.calls();
            let at = candidates@[i as int].transport.calls();
            lemma_extends_concat(start[i as int].transport.calls(), bt, at);
            assert(candidate_log(start, before, i as int) =~= Seq::<Call>::empty());
            assert(candidate_log(start, candidates@, i as int) =~= candidate_log(start, before, i as int) + new_calls(bt, at));
            hidpp::lemma_no_writes_concat(candidate_log(start, before, i as int), new_calls(bt, at));
            let old_pre = pre;
            let old_tallies = tallies;
            let old_results = results;
            pre = old_pre.push(new_calls(bt, at));
            tallies = old_tallies.push(tally);
            results = old_results.push(found_view);
            assert forall|j: int| 0 <= j < results.len() implies #[trigger] spec_preflight_interface(
                pre[j],
                start[j].interface_number,
                tallies[j],
                tallies[j + 1],
                results[j],
            ) by {
                if j < i {
                    assert(spec_preflight_interface(
                        old_pre[j],
                        start[j].interface_number,
                        old_tallies[j],
                        old_tallies[j + 1],
                        old_results[j],
                    ));
                }
            }
            assert(results.drop_last() =~= old_results);
            assert forall|k: int| 0 <= k < results.len() implies (#[trigger] candidates_state(results.take(k))).1
                is None by {
                if k < i {
                    assert(results.take(k) =~= old_results.take(k));
                } else {
                    assert(results.take(k) =~= old_results);
                }
            }
            assert forall|j: int| 0 <= j < start.len() implies {
                &&& (#[trigger] candidates@[j]).interface_number == start[j].interface_number
                &&& candidates@[j].vid == start[j].vid
                &&& candidates@[j].pid == start[j].pid
                &&& candidates@[j].product == start[j].product
                &&& extends(start[j].transport.calls(), candidates@[j].transport.calls())
                &&& no_writes(candidate_log(start, candidates@, j))
            } by {
                if j != i {
                    assert(candidates@[j] == before[j]);
                }
            }
            assert forall|j: int| 0 <= j < start.len() implies #[trigger] candidate_log(start, candidates@, j) == if j
                < pre.len() {
                pre[j]
            } else {
                Seq::<Call>::empty()
            } by {
                if j != i {
                    assert(candidates@[j] == before[j]);
                    assert(candidate_log(start, before, j) == if j < old_pre.len() {
                        old_pre[j]
                    } else {
                        Seq::<Call>::empty()
                    });
                }
            }
            assert(logs_match(start, candidates@, pre, None));
        }
        match found {
            Err(e) => {
                proof {
                    assert(candidates_state(results).1 == Some(e));
                    assert(preflights(start, pre, tallies, results));
                }
                return Err(e);
            },
            Ok(Some((index, feature, sensor))) => {
                proof {
                    assert(candidates_state(results).0 == candidates_state(results.drop_last()).0.push(
                        (i as int, (index, feature, sensor@)),
                    ));
                }
                targets.push((i, index, feature, sensor));
            },
            Ok(None) => {},
        }
        i = i + 1;
    }
    match target_choice(targets.len(), tally) {
        Some(e) => {
            proof {
                assert(preflights(start, pre, tallies, results));
            }
            return Err(e);
        },
        None => {},
    }
    let ghost chosen_view = candidates_state(results).0[0];
    let (position, device, feature, sensor) = targets.remove(0);
    let previous = sensor.current;
    let interface_number = candidates[position].interface_number;
    let vid = candidates[position].vid;
    let pid = candidates[position].pid;
    let product = candidates[position].product.clone();
    let ghost before = candidates@;
    let written = dpi::set_and_verify(&mut candidates[position].transport, device, feature, 1, &sensor, requested);
    let ghost w = new_calls(before[position as int].transport.calls(), candidates@[position as int].transport.calls());
    proof {
        let p = position as int;
        let bt = before[p].transport.calls();
        let at = candidates@[p].transport.calls();
        let pre_p = candidate_log(start, before, p);
        lemma_extends_concat(start[p].transport.calls(), bt, at);
        assert(candidate_log(start, candidates@, p) =~= pre_p + w);
        lemma_reads_then_write(pre_p, w);
        assert forall|j: int| 0 <= j < start.len() && j != p implies #[trigger] candidates@[j] == before[j] by {}
        if written is Ok {
            assert(w[0].function == 3);
            assert(candidate_log(start, candidates@, p)[pre_p.len() as int] == w[0]);
        }
        assert(chosen_view == (p, (device, feature, sensor@)));
        assert forall|j: int| 0 <= j < start.len() implies #[trigger] candidate_log(start, candidates@, j) == if j
            < pre.len() {
            if p == j {
                pre[j] + w
            } else {
                pre[j]
            }
        } else {
            Seq::<Call>::empty()
        } by {
            if j != p {
                assert(candidates@[j] == before[j]);
            }
        }
        assert(logs_match(start, candidates@, pre, Some((p, w))));
        assert(dpi::spec_set_and_verify(w, device, feature, 1, sensor@, requested, written));
        assert(preflights(start, pre, tallies, results));
    }
    let outcome = match written {
        Ok(outcome) => outcome,
        Err(e) => {
            proof {
                lemma_unique_written(
                    start,
                    candidates@,
                    requested,
                    Err(DpiSetTargetError::Write(e)),
                    pre,
                    tallies,
                    results,
                    w,
                    written,
                );
            }
            return Err(DpiSetTargetError::Write(e));
        },
    };
    let report = DpiSetReport {
        interface_number,
        vid,
        pid,
        product,
        device_index: device,
        feature_version: feature.version,
        previous,
        requested,
        outcome,
    };
    proof {
        assert(report@ == candidate_report(start[position as int], chosen_view.1, requested, outcome));
        lemma_unique_written(start, candidates@, requested, Ok(report@), pre, tallies, results, w, written);
    }
    Ok(report)
}


/// How a refused or failed unique-target DPI write reads to a person.
pub open spec fn spec_describe_target_error(e: DpiSetTargetError) -> Seq<char> {
    match e {
        DpiSetTargetError::Enumeration(error) => "Device enumeration failed: "@ + hidpp::spec_describe(error),
        DpiSetTargetError::Preflight { interface_number, device_index, error } => "DPI preflight failed on interface "@
            + spec_decimal(interface_number as nat) + ", device 0x"@ + spec_upper_hex(device_index as nat, 2) + ": "@
            + hidpp::spec_describe(error) + "; no write was sent"@,
        DpiSetTargetError::MultipleSensors { interface_number, device_index, count } => "Interface "@
            + spec_decimal(interface_number as nat) + ", device 0x"@ + spec_upper_hex(device_index as nat, 2)
            + " reports "@ + spec_decimal(count as nat) + " sensors; this phase refuses multi-sensor writes"@,
        DpiSetTargetError::UnsupportedFeature => "Reachable HID++ endpoints do not expose adjustable DPI feature 0x2201"@,
        DpiSetTargetError::NoWritableTarget => "No currently writable 0x2201 endpoint passed the fresh DPI preflight"@,
        DpiSetTargetError::MultipleWritableTargets(count) => "Found "@ + spec_decimal(count as nat)
            + " currently writable 0x2201 endpoints; refusing to choose a target"@,
        DpiSetTargetError::Write(error) => dpi::spec_describe_set_error(error),
    }
}

impl DpiSetTargetError {
    pub fn describe(&self) -> (r: String)
        ensures
            r@ == spec_describe_target_error(*self),
    {
        match self {
            DpiSetTargetError::Enumeration(error) => {
                let mut out = string_from("Device enumeration failed: ");
                let detail = error.describe();
                push_str(&mut out, detail.as_str());
                out
            },
            DpiSetTargetError::Preflight { interface_number, device_index, error } => {
                let mut out = string_from("DPI preflight failed on interface ");
                push_decimal(&mut out, *interface_number as u64);
                push_str(&mut out, ", device 0x");
                push_upper_hex(&mut out, *device_index as u64, 2);
                push_str(&mut out, ": ");
                let detail = error.describe();
                push_str(&mut out, detail.as_str());
                push_str(&mut out, "; no write was sent");
                out
            },
            DpiSetTargetError::MultipleSensors { interface_number, device_index, count } => {
                let mut out = string_from("Interface ");
                push_decimal(&mut out, *interface_number as u64);
                push_str(&mut out, ", device 0x");
                push_upper_hex(&mut out, *device_index as u64, 2);
                push_str(&mut out, " reports ");
                push_decimal(&mut out, *count as u64);
                push_str(&mut out, " sensors; this phase refuses multi-sensor writes");
                out
            },
            DpiSetTargetError::UnsupportedFeature => string_from(
                "Reachable HID++ endpoints do not expose adjustable DPI feature 0x2201",
            ),
            DpiSetTargetError::NoWritableTarget => string_from(
                "No currently writable 0x2201 endpoint passed the fresh DPI preflight",
            ),
            DpiSetTargetError::MultipleWritableTargets(count) => {
                let mut out = string_from("Found ");
                push_decimal(&mut out, *count as u64);
                push_str(&mut out, " currently writable 0x2201 endpoints; refusing to choose a target");
                out
            },
            DpiSetTargetError::Write(error) => error.describe(),
        }
    }
}
} // verus!

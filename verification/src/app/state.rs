use vstd::prelude::*;

pub use super::settings::DEFAULT_PRESETS;
use super::settings::{
    all_digits, digits_value, is_digit, lemma_decimal_digits, clone_string_option, default_settings, string_option_view, Language, Settings, SettingsView,
    Theme, DEFAULT_THRESHOLD,
};
use crate::hid::device::{
    endpoints_of, has_result, is_feature, is_feature_protocol, lemma_endpoint_position,
    lemma_endpoints_of_step, lemma_paired_step, paired, reports_supported, Endpoint, Interface,
};
use crate::hid::features::battery::{Battery, Charging, Level};
use super::text::{spec_text, text, TextKey};
use crate::hid::features::dpi::{self, DpiValues, DpiValuesView, SetDpiOutcome};
use crate::strings::{push_decimal, push_str, spec_decimal, str_eq, string_from};

verus! {

#[derive(Debug, Clone, Copy, PartialEq, Eq, Structural)]
pub enum OperationError {
    WorkerBusy,
    Remains(u16),
    NotVerified,
    Failed,
}

#[derive(Debug, Clone, Copy, PartialEq, Eq, Structural)]
pub enum OperationStatus {
    Idle,
    Loading,
    Applying(u16),
    Verified(u16),
    Failed(OperationError),
}

#[derive(Debug, Clone, Copy, PartialEq, Eq, Structural)]
pub enum SettingsNotice {
    Saved,
    SaveFailed,
    StartupFailed,
    InvalidPreset,
}

#[derive(Debug, Clone, Copy, PartialEq, Eq, Structural)]
pub enum DeviceStatus {
    Unavailable,
    Single,
    MultipleDevices,
}

#[derive(Debug, Clone, Copy, PartialEq, Eq, Structural)]
pub struct PresetState {
    pub dpi: u16,
    pub enabled: bool,
    pub checked: bool,
}

#[derive(Debug, PartialEq, Eq)]
pub struct DeviceOption {
    pub id: String,
    pub label: String,
    pub selected: bool,
}

pub struct DeviceOptionView {
    pub id: Seq<char>,
    pub label: Seq<char>,
    pub selected: bool,
}

impl View for DeviceOption {
    type V = DeviceOptionView;

    open spec fn view(&self) -> DeviceOptionView {
        DeviceOptionView { id: self.id@, label: self.label@, selected: self.selected }
    }
}

impl Clone for DeviceOption {
    fn clone(&self) -> (r: Self)
        ensures
            r@ == self@,
    {
        DeviceOption { id: self.id.clone(), label: self.label.clone(), selected: self.selected }
    }
}

/// The small snapshot that the tray and window show.
#[derive(Debug, PartialEq, Eq)]
pub struct AppState {
    pub status: DeviceStatus,
    pub product: Option<String>,
    pub battery_percent: Option<u8>,
    pub battery_level: Option<Level>,
    pub charging: Option<Charging>,
    pub current_dpi: Option<u16>,
    pub supported_dpi: Option<DpiValues>,
    pub presets: [u16; 4],
    pub theme: Theme,
    pub language: Option<Language>,
    pub startup: bool,
    pub battery_notifications: bool,
    pub battery_threshold: u8,
    pub devices: Vec<DeviceOption>,
    pub selected_device: Option<String>,
    pub operation: OperationStatus,
    pub settings_notice: Option<SettingsNotice>,
    /// The opaque ID of the endpoint this snapshot describes, when it describes exactly one.
    pub target: Option<String>,
}

pub struct AppStateView {
    pub status: DeviceStatus,
    pub product: Option<Seq<char>>,
    pub battery_percent: Option<u8>,
    pub battery_level: Option<Level>,
    pub charging: Option<Charging>,
    pub current_dpi: Option<u16>,
    pub supported_dpi: Option<DpiValuesView>,
    pub presets: Seq<u16>,
    pub theme: Theme,
    pub language: Option<Language>,
    pub startup: bool,
    pub battery_notifications: bool,
    pub battery_threshold: u8,
    pub devices: Seq<DeviceOptionView>,
    pub selected_device: Option<Seq<char>>,
    pub operation: OperationStatus,
    pub settings_notice: Option<SettingsNotice>,
    /// The opaque ID of the endpoint this snapshot describes, when it describes exactly one.
    pub target: Option<Seq<char>>,
}

pub open spec fn dpi_option_view(v: Option<DpiValues>) -> Option<DpiValuesView> {
    match v {
        Some(x) => Some(x@),
        None => None,
    }
}

pub open spec fn options_view(v: Seq<DeviceOption>) -> Seq<DeviceOptionView> {
    v.map_values(|o: DeviceOption| o@)
}

impl View for AppState {
    type V = AppStateView;

    open spec fn view(&self) -> AppStateView {
        AppStateView {
            status: self.status,
            product: string_option_view(self.product),
            battery_percent: self.battery_percent,
            battery_level: self.battery_level,
            charging: self.charging,
            current_dpi: self.current_dpi,
            supported_dpi: dpi_option_view(self.supported_dpi),
            presets: self.presets@,
            theme: self.theme,
            language: self.language,
            startup: self.startup,
            battery_notifications: self.battery_notifications,
            battery_threshold: self.battery_threshold,
            devices: options_view(self.devices@),
            selected_device: string_option_view(self.selected_device),
            operation: self.operation,
            settings_notice: self.settings_notice,
            target: string_option_view(self.target),
        }
    }
}

fn clone_dpi_option(v: &Option<DpiValues>) -> (r: Option<DpiValues>)
    ensures
        dpi_option_view(r) == dpi_option_view(*v),
{
    match v {
        Some(x) => Some(x.clone()),
        None => None,
    }
}

fn clone_options(v: &Vec<DeviceOption>) -> (r: Vec<DeviceOption>)
    ensures
        options_view(r@) == options_view(v@),
{
    let mut out: Vec<DeviceOption> = Vec::new();
    let mut i: usize = 0;
    assert(options_view(out@) =~= options_view(v@.take(0)));
    while i < v.len()
        invariant
            i <= v@.len(),
            out@.len() == i,
            options_view(out@) == options_view(v@.take(i as int)),
        decreases v@.len() - i,
    {
        let c = v[i].clone();
        let ghost prev = out@;
        out.push(c);
        assert(out@ == prev.push(c));
        assert(c@ == v@[i as int]@);
        i = i + 1;
        assert forall|k: int| 0 <= k < i implies #[trigger] options_view(out@)[k] == options_view(v@.take(i as int))[k] by {
            if k < i - 1 {
                assert(out@[k] == prev[k]);
                assert(options_view(prev)[k] == options_view(v@.take(i - 1))[k]);
            }
        }
        assert(options_view(out@) =~= options_view(v@.take(i as int)));
    }
    assert(v@.take(v@.len() as int) =~= v@);
    out
}

impl Clone for AppState {
    fn clone(&self) -> (r: Self)
        ensures
            r@ == self@,
    {
        AppState {
            status: self.status,
            product: clone_string_option(&self.product),
            battery_percent: self.battery_percent,
            battery_level: self.battery_level,
            charging: self.charging,
            current_dpi: self.current_dpi,
            supported_dpi: clone_dpi_option(&self.supported_dpi),
            presets: self.presets,
            theme: self.theme,
            language: self.language,
            startup: self.startup,
            battery_notifications: self.battery_notifications,
            battery_threshold: self.battery_threshold,
            devices: clone_options(&self.devices),
            selected_device: clone_string_option(&self.selected_device),
            operation: self.operation,
            settings_notice: self.settings_notice,
            target: clone_string_option(&self.target),
        }
    }
}

/// A snapshot without any device, carrying the given preferences.
pub open spec fn unavailable_state(status: DeviceStatus, settings: SettingsView, devices: Seq<DeviceOptionView>) -> AppStateView {
    AppStateView {
        status,
        product: None,
        battery_percent: None,
        battery_level: None,
        charging: None,
        current_dpi: None,
        supported_dpi: None,
        presets: settings.presets,
        theme: settings.theme,
        language: settings.language,
        startup: settings.startup,
        battery_notifications: settings.battery_notifications,
        battery_threshold: settings.battery_threshold,
        devices,
        selected_device: None,
        operation: OperationStatus::Idle,
        settings_notice: None,
        target: None,
    }
}

pub open spec fn default_state() -> AppStateView {
    unavailable_state(DeviceStatus::Unavailable, default_settings(), Seq::empty())
}

impl Default for AppState {
    fn default() -> (r: Self)
        ensures
            r@ == default_state(),
    {
        let settings = Settings::default();
        let r = AppState {
            status: DeviceStatus::Unavailable,
            product: None,
            battery_percent: None,
            battery_level: None,
            charging: None,
            current_dpi: None,
            supported_dpi: None,
            presets: settings.presets,
            theme: Theme::System,
            language: None,
            startup: settings.startup,
            battery_notifications: settings.battery_notifications,
            battery_threshold: settings.battery_threshold,
            devices: Vec::new(),
            selected_device: None,
            operation: OperationStatus::Idle,
            settings_notice: None,
            target: None,
        };
        assert(options_view(r.devices@) =~= Seq::<DeviceOptionView>::empty());
        r
    }
}

/// An endpoint the snapshot can describe: HID++ 2.x with 0x2201 reported present.
pub open spec fn state_target(e: Endpoint) -> bool {
    is_feature_protocol(e.protocol) && reports_supported(e.features@, 0x2201)
}

pub open spec fn spec_targets(ps: Seq<(Interface, Endpoint)>) -> Seq<(Interface, Endpoint)>
    decreases ps.len(),
{
    if ps.len() == 0 {
        Seq::empty()
    } else if state_target(ps.last().1) {
        spec_targets(ps.drop_last()).push(ps.last())
    } else {
        spec_targets(ps.drop_last())
    }
}

pub open spec fn count_opaque(ts: Seq<(Interface, Endpoint)>, id: Seq<char>) -> nat
    decreases ts.len(),
{
    if ts.len() == 0 {
        0
    } else {
        count_opaque(ts.drop_last(), id) + if ts.last().1.opaque_id@ == id {
            1nat
        } else {
            0nat
        }
    }
}

pub open spec fn first_opaque(ts: Seq<(Interface, Endpoint)>, id: Seq<char>, i: int) -> int
    decreases ts.len() - i,
{
    if i < 0 || i >= ts.len() {
        ts.len() as int
    } else if ts[i].1.opaque_id@ == id {
        i
    } else {
        first_opaque(ts, id, i + 1)
    }
}

/// The sole target, or the one target matching the remembered device exactly once.
pub open spec fn spec_selected_index(ts: Seq<(Interface, Endpoint)>, remembered: Option<Seq<char>>) -> Option<int> {
    if ts.len() == 1 {
        Some(0)
    } else {
        match remembered {
            None => None,
            Some(id) => if count_opaque(ts, id) == 1 {
                Some(first_opaque(ts, id, 0))
            } else {
                None
            },
        }
    }
}

pub open spec fn count_product(ts: Seq<(Interface, Endpoint)>, product: Seq<char>) -> nat
    decreases ts.len(),
{
    if ts.len() == 0 {
        0
    } else {
        count_product(ts.drop_last(), product) + if ts.last().0.product@ == product {
            1nat
        } else {
            0nat
        }
    }
}

/// A device choice: the product name, or with receiver and slot numbers when several targets
/// share that name.
pub open spec fn spec_option(ts: Seq<(Interface, Endpoint)>, i: int, selected: Option<int>) -> DeviceOptionView {
    let (interface, endpoint) = ts[i];
    DeviceOptionView {
        id: endpoint.opaque_id@,
        label: if count_product(ts, interface.product@) > 1 {
            interface.product@ + " · Receiver "@ + spec_decimal(interface.number as nat) + " · Slot "@
                + spec_decimal(endpoint.index as nat)
        } else {
            interface.product@
        },
        selected: selected == Some(i),
    }
}

pub open spec fn spec_options(ts: Seq<(Interface, Endpoint)>, selected: Option<int>) -> Seq<DeviceOptionView> {
    Seq::new(ts.len(), |i: int| spec_option(ts, i, selected))
}

pub open spec fn battery_of(e: Endpoint) -> Option<Battery> {
    match e.battery {
        Some(Ok(b)) => Some(b),
        _ => None,
    }
}

pub open spec fn sensor_of(e: Endpoint) -> Option<dpi::SensorDpiView> {
    match e.dpi {
        Some(Ok(sensors)) => if sensors@.len() == 1 {
            Some(sensors@[0]@)
        } else {
            None
        },
        _ => None,
    }
}

/// The snapshot of a scan: one selected target gives battery and DPI values; several
/// targets without a unique selection give `MultipleDevices`; none gives `Unavailable`.
pub open spec fn spec_from_scan(ps: Seq<(Interface, Endpoint)>, settings: SettingsView) -> AppStateView {
    let ts = spec_targets(ps);
    let selected = spec_selected_index(ts, settings.device);
    let devices = spec_options(ts, selected);
    match selected {
        None => unavailable_state(
            if ts.len() > 1 {
                DeviceStatus::MultipleDevices
            } else {
                DeviceStatus::Unavailable
            },
            settings,
            devices,
        ),
        Some(i) => {
            let (interface, endpoint) = ts[i];
            let battery = battery_of(endpoint);
            let sensor = sensor_of(endpoint);
            AppStateView {
                status: DeviceStatus::Single,
                product: Some(interface.product@),
                battery_percent: match battery {
                    Some(b) => b.percentage,
                    None => None,
                },
                battery_level: match battery {
                    Some(b) => b.level,
                    None => None,
                },
                charging: match battery {
                    Some(b) => Some(b.charging),
                    None => None,
                },
                current_dpi: match sensor {
                    Some(s) => Some(s.current),
                    None => None,
                },
                supported_dpi: match sensor {
                    Some(s) => Some(s.supported),
                    None => None,
                },
                presets: settings.presets,
                theme: settings.theme,
                language: settings.language,
                startup: settings.startup,
                battery_notifications: settings.battery_notifications,
                battery_threshold: settings.battery_threshold,
                devices,
                selected_device: Some(endpoint.opaque_id@),
                operation: OperationStatus::Idle,
                settings_notice: None,
                target: Some(endpoint.opaque_id@),
            }
        },
    }
}

/// Positions `(interface, endpoint)` of the snapshot's candidate endpoints, in scan order.
fn targets(interfaces: &[Interface]) -> (r: Vec<(usize, usize)>)
    ensures
        r@.len() == spec_targets(endpoints_of(interfaces@)).len(),
        forall|k: int|
            0 <= k < r@.len() ==> {
                let (i, j) = #[trigger] r@[k];
                &&& i < interfaces@.len()
                &&& j < interfaces@[i as int].endpoints@.len()
                &&& spec_targets(endpoints_of(interfaces@))[k] == (
                    interfaces@[i as int],
                    interfaces@[i as int].endpoints@[j as int],
                )
            },
{
    let mut out: Vec<(usize, usize)> = Vec::new();
    let mut i: usize = 0;
    assert(interfaces@.take(0) =~= Seq::<Interface>::empty());
    while i < interfaces.len()
        invariant
            i <= interfaces@.len(),
            ({
                let ts = spec_targets(endpoints_of(interfaces@.take(i as int)));
                &&& out@.len() == ts.len()
                &&& forall|k: int|
                    0 <= k < out@.len() ==> {
                        let (a, b) = #[trigger] out@[k];
                        &&& a < interfaces@.len()
                        &&& b < interfaces@[a as int].endpoints@.len()
                        &&& ts[k] == (interfaces@[a as int], interfaces@[a as int].endpoints@[b as int])
                    }
            }),
        decreases interfaces@.len() - i,
    {
        let interface = &interfaces[i];
        let ghost prefix = endpoints_of(interfaces@.take(i as int));
        let mut j: usize = 0;
        assert(prefix + paired(*interface, interface.endpoints@.take(0)) =~= prefix);
        while j < interface.endpoints.len()
            invariant
                i < interfaces@.len(),
                *interface == interfaces@[i as int],
                prefix == endpoints_of(interfaces@.take(i as int)),
                j <= interface.endpoints@.len(),
                ({
                    let ts = spec_targets(prefix + paired(*interface, interface.endpoints@.take(j as int)));
                    &&& out@.len() == ts.len()
                    &&& forall|k: int|
                        0 <= k < out@.len() ==> {
                            let (a, b) = #[trigger] out@[k];
                            &&& a < interfaces@.len()
                            &&& b < interfaces@[a as int].endpoints@.len()
                            &&& ts[k] == (interfaces@[a as int], interfaces@[a as int].endpoints@[b as int])
                        }
                }),
            decreases interface.endpoints@.len() - j,
        {
            let endpoint = &interface.endpoints[j];
            let ghost before = prefix + paired(*interface, interface.endpoints@.take(j as int));
            proof {
                lemma_paired_step(prefix, *interface, interface.endpoints@, j as int);
            }
            let ghost after = before.push((*interface, *endpoint));
            assert(after.drop_last() =~= before);
            if is_feature(&endpoint.protocol) && has_result(endpoint.features.as_slice(), 0x2201, true) {
                out.push((i, j));
            }
            j = j + 1;
        }
        proof {
            lemma_endpoints_of_step(interfaces@, i as int);
            assert(interface.endpoints@.take(interface.endpoints@.len() as int) =~= interface.endpoints@);
        }
        i = i + 1;
    }
    assert(interfaces@.take(interfaces@.len() as int) =~= interfaces@);
    out
}


/// The targets' positions resolve to `ts` (the spec targets of the scan).
pub open spec fn positions_resolve(interfaces: Seq<Interface>, pos: Seq<(usize, usize)>, ts: Seq<(Interface, Endpoint)>) -> bool {
    &&& pos.len() == ts.len()
    &&& forall|k: int|
        0 <= k < pos.len() ==> {
            let (i, j) = #[trigger] pos[k];
            &&& i < interfaces.len()
            &&& j < interfaces[i as int].endpoints@.len()
            &&& ts[k] == (interfaces[i as int], interfaces[i as int].endpoints@[j as int])
        }
}

fn selected_target_index(
    interfaces: &[Interface],
    pos: &Vec<(usize, usize)>,
    remembered: Option<&str>,
) -> (r: Option<usize>)
    requires
        positions_resolve(interfaces@, pos@, spec_targets(endpoints_of(interfaces@))),
    ensures
        match r {
            Some(k) => spec_selected_index(spec_targets(endpoints_of(interfaces@)), crate::hid::device::str_option_view(remembered)) == Some(k as int) && k < pos@.len(),
            None => spec_selected_index(spec_targets(endpoints_of(interfaces@)), crate::hid::device::str_option_view(remembered)) is None,
        },
{
    let ghost ts = spec_targets(endpoints_of(interfaces@));
    if pos.len() == 1 {
        return Some(0);
    }
    let remembered = match remembered {
        Some(r) => r,
        None => return None,
    };
    let mut first: Option<usize> = None;
    let mut count: usize = 0;
    let mut k: usize = 0;
    while k < pos.len()
        invariant
            positions_resolve(interfaces@, pos@, ts),
            k <= pos@.len(),
            count == count_opaque(ts.take(k as int), remembered@),
            count <= k,
            match first {
                None => count == 0 && forall|m: int| 0 <= m < k ==> ts[m].1.opaque_id@ != remembered@,
                Some(f) => f < k && f == first_opaque(ts, remembered@, 0),
            },
        decreases pos@.len() - k,
    {
        let (i, j) = pos[k];
        assert(ts.take(k + 1).drop_last() =~= ts.take(k as int));
        assert(ts[k as int] == (interfaces@[i as int], interfaces@[i as int].endpoints@[j as int]));
        if str_eq(interfaces[i].endpoints[j].opaque_id.as_str(), remembered) {
            if first.is_none() {
                proof {
                    lemma_first_opaque_skip(ts, remembered@, k as int);
                }
                first = Some(k);
            }
            count = count + 1;
        }
        k = k + 1;
    }
    assert(ts.take(ts.len() as int) =~= ts);
    match first {
        Some(f) => if count == 1 {
            Some(f)
        } else {
            None
        },
        None => None,
    }
}

proof fn lemma_first_opaque_skip(ts: Seq<(Interface, Endpoint)>, id: Seq<char>, i: int)
    requires
        0 <= i <= ts.len(),
        forall|j: int| 0 <= j < i ==> ts[j].1.opaque_id@ != id,
    ensures
        first_opaque(ts, id, 0) == first_opaque(ts, id, i),
    decreases i,
{
    if i > 0 {
        lemma_first_opaque_skip(ts, id, i - 1);
    }
}

fn device_options(
    interfaces: &[Interface],
    pos: &Vec<(usize, usize)>,
    selected: Option<usize>,
) -> (r: Vec<DeviceOption>)
    requires
        positions_resolve(interfaces@, pos@, spec_targets(endpoints_of(interfaces@))),
    ensures
        options_view(r@) == spec_options(
            spec_targets(endpoints_of(interfaces@)),
            match selected {
                Some(k) => Some(k as int),
                None => None,
            },
        ),
{
    let ghost ts = spec_targets(endpoints_of(interfaces@));
    let ghost sel: Option<int> = match selected {
        Some(k) => Some(k as int),
        None => None,
    };
    let mut out: Vec<DeviceOption> = Vec::new();
    let mut k: usize = 0;
    while k < pos.len()
        invariant
            positions_resolve(interfaces@, pos@, ts),
            k <= pos@.len(),
            out@.len() == k,
            sel == match selected {
                Some(k) => Some(k as int),
                None => None::<int>,
            },
            forall|m: int| 0 <= m < k ==> #[trigger] options_view(out@)[m] == spec_option(ts, m, sel),
        decreases pos@.len() - k,
    {
        let (i, j) = pos[k];
        let interface = &interfaces[i];
        let endpoint = &interface.endpoints[j];
        assert(ts[k as int] == (*interface, *endpoint));
        let mut same: usize = 0;
        let mut m: usize = 0;
        while m < pos.len()
            invariant
                positions_resolve(interfaces@, pos@, ts),
                m <= pos@.len(),
                same == count_product(ts.take(m as int), interface.product@),
                same <= m,
            decreases pos@.len() - m,
        {
            let (a, b) = pos[m];
            assert(ts.take(m + 1).drop_last() =~= ts.take(m as int));
            assert(ts[m as int] == (interfaces@[a as int], interfaces@[a as int].endpoints@[b as int]));
            if str_eq(interfaces[a].product.as_str(), interface.product.as_str()) {
                same = same + 1;
            }
            m = m + 1;
        }
        assert(ts.take(ts.len() as int) =~= ts);
        let mut label = interface.product.clone();
        if same > 1 {
            push_str(&mut label, " · Receiver ");
            push_decimal(&mut label, interface.number as u64);
            push_str(&mut label, " · Slot ");
            push_decimal(&mut label, endpoint.index as u64);
        }
        let option = DeviceOption {
            id: endpoint.opaque_id.clone(),
            label,
            selected: match selected {
                Some(s) => s == k,
                None => false,
            },
        };
        assert(option@.label == spec_option(ts, k as int, sel).label);
        assert(option@.id == spec_option(ts, k as int, sel).id);
        assert(option@.selected == spec_option(ts, k as int, sel).selected);
        let ghost prev = out@;
        out.push(option);
        assert forall|x: int| 0 <= x < k + 1 implies #[trigger] options_view(out@)[x] == spec_option(ts, x, sel) by {
            if x < k {
                assert(out@[x] == prev[x]);
                assert(options_view(prev)[x] == spec_option(ts, x, sel));
            }
        }
        k = k + 1;
    }
    assert(options_view(out@) =~= spec_options(ts, sel));
    out
}

impl AppState {
    pub fn from_scan(interfaces: &[Interface]) -> (r: Self)
        ensures
            r@ == spec_from_scan(endpoints_of(interfaces@), default_settings()),
    {
        Self::from_scan_with_settings(interfaces, &Settings::default())
    }

    pub fn from_scan_with_settings(interfaces: &[Interface], settings: &Settings) -> (r: Self)
        ensures
            r@ == spec_from_scan(endpoints_of(interfaces@), settings@),
    {
        let ghost ts = spec_targets(endpoints_of(interfaces@));
        let pos = targets(interfaces);
        let remembered: Option<&str> = match &settings.device {
            Some(d) => Some(d.as_str()),
            None => None,
        };
        assert(crate::hid::device::str_option_view(remembered) == settings@.device);
        let selected = selected_target_index(interfaces, &pos, remembered);
        let devices = device_options(interfaces, &pos, selected);
        let k = match selected {
            Some(k) => k,
            None => {
                return AppState {
                    status: if pos.len() > 1 {
                        DeviceStatus::MultipleDevices
                    } else {
                        DeviceStatus::Unavailable
                    },
                    product: None,
                    battery_percent: None,
                    battery_level: None,
                    charging: None,
                    current_dpi: None,
                    supported_dpi: None,
                    presets: settings.presets,
                    theme: settings.theme,
                    language: settings.language,
                    startup: settings.startup,
                    battery_notifications: settings.battery_notifications,
                    battery_threshold: settings.battery_threshold,
                    devices,
                    selected_device: None,
                    operation: OperationStatus::Idle,
                    settings_notice: None,
                    target: None,
                };
            },
        };
        let (i, j) = pos[k];
        let interface = &interfaces[i];
        let endpoint = &interface.endpoints[j];
        assert(ts[k as int] == (*interface, *endpoint));
        let battery: Option<Battery> = match &endpoint.battery {
            Some(Ok(b)) => Some(*b),
            _ => None,
        };
        let (current_dpi, supported_dpi) = match &endpoint.dpi {
            Some(Ok(sensors)) => if sensors.len() == 1 {
                (Some(sensors[0].current), Some(sensors[0].supported.clone()))
            } else {
                (None, None)
            },
            _ => (None, None),
        };
        AppState {
            status: DeviceStatus::Single,
            product: Some(interface.product.clone()),
            battery_percent: match battery {
                Some(b) => b.percentage,
                None => None,
            },
            battery_level: match battery {
                Some(b) => b.level,
                None => None,
            },
            charging: match battery {
                Some(b) => Some(b.charging),
                None => None,
            },
            current_dpi,
            supported_dpi,
            presets: settings.presets,
            theme: settings.theme,
            language: settings.language,
            startup: settings.startup,
            battery_notifications: settings.battery_notifications,
            battery_threshold: settings.battery_threshold,
            devices,
            selected_device: Some(endpoint.opaque_id.clone()),
            operation: OperationStatus::Idle,
            settings_notice: None,
            target: Some(endpoint.opaque_id.clone()),
        }
    }
}


/// The preferences a snapshot carries.
pub open spec fn state_settings(s: AppStateView) -> SettingsView {
    SettingsView {
        presets: s.presets,
        theme: s.theme,
        language: s.language,
        startup: s.startup,
        battery_notifications: s.battery_notifications,
        battery_threshold: s.battery_threshold,
        device: s.selected_device,
    }
}

/// A preset button: enabled only for a single device that reports that exact DPI as
/// supported; checked only when it equals the current DPI of a single device.
pub open spec fn spec_preset(s: AppStateView, value: u16) -> PresetState {
    PresetState {
        dpi: value,
        enabled: s.status == DeviceStatus::Single && match s.supported_dpi {
            Some(supported) => dpi::spec_supports_dpi(supported, value),
            None => false,
        },
        checked: s.status == DeviceStatus::Single && s.current_dpi == Some(value),
    }
}

/// The snapshot after a DPI write: read-back values become the current DPI.
pub open spec fn spec_apply_outcome(s: AppStateView, outcome: SetDpiOutcome) -> AppStateView {
    match outcome {
        SetDpiOutcome::Verified { current } => AppStateView {
            current_dpi: Some(current),
            operation: OperationStatus::Verified(current),
            ..s
        },
        SetDpiOutcome::TimedOutConfirmed { current } => AppStateView {
            current_dpi: Some(current),
            operation: OperationStatus::Verified(current),
            ..s
        },
        SetDpiOutcome::AcknowledgedMismatch { actual } => AppStateView {
            current_dpi: Some(actual),
            operation: OperationStatus::Failed(OperationError::Remains(actual)),
            ..s
        },
        SetDpiOutcome::TimedOutDifferent { actual } => AppStateView {
            current_dpi: Some(actual),
            operation: OperationStatus::Failed(OperationError::Remains(actual)),
            ..s
        },
        _ => AppStateView { operation: OperationStatus::Failed(OperationError::NotVerified), ..s },
    }
}

/// A full rescan replaces every device value; only preferences, the pending operation and
/// the settings notice carry over.
pub open spec fn spec_replace_from_scan(s: AppStateView, interfaces: Seq<Interface>) -> AppStateView {
    AppStateView {
        operation: s.operation,
        settings_notice: s.settings_notice,
        ..spec_from_scan(endpoints_of(interfaces), state_settings(s))
    }
}

/// The known DPI values survive a battery-only scan only when the scan finds a target and it
/// is the very target the state already had.
pub open spec fn keeps_dpi(previous: Option<Seq<char>>, fresh: Option<Seq<char>>) -> bool {
    fresh is Some && fresh == previous
}

/// A battery-only scan keeps the known DPI values only when it finds the same sole target;
/// when no target is found, before or after, the values come from the fresh scan.
pub open spec fn spec_apply_battery_scan(s: AppStateView, interfaces: Seq<Interface>) -> AppStateView {
    let fresh = spec_from_scan(endpoints_of(interfaces), state_settings(s));
    AppStateView {
        current_dpi: if keeps_dpi(s.target, fresh.target) {
            s.current_dpi
        } else {
            fresh.current_dpi
        },
        supported_dpi: if keeps_dpi(s.target, fresh.target) {
            s.supported_dpi
        } else {
            fresh.supported_dpi
        },
        operation: s.operation,
        settings_notice: s.settings_notice,
        ..fresh
    }
}

/// Switching devices records the choice and clears every device value until the next scan.
pub open spec fn spec_begin_device_switch(s: AppStateView, device: Seq<char>) -> AppStateView {
    AppStateView {
        selected_device: Some(device),
        devices: Seq::new(
            s.devices.len(),
            |i: int| (DeviceOptionView { selected: s.devices[i].id == device, ..s.devices[i] }),
        ),
        status: DeviceStatus::Unavailable,
        product: None,
        battery_percent: None,
        battery_level: None,
        charging: None,
        current_dpi: None,
        supported_dpi: None,
        target: None,
        operation: OperationStatus::Loading,
        ..s
    }
}

/// Both states name a target, and it is the same one.
fn same_target(previous: &Option<String>, fresh: &Option<String>) -> (r: bool)
    ensures
        r == keeps_dpi(string_option_view(*previous), string_option_view(*fresh)),
{
    match (previous, fresh) {
        (Some(x), Some(y)) => str_eq(x.as_str(), y.as_str()),
        _ => false,
    }
}

impl AppState {
    pub fn settings(&self) -> (r: Settings)
        ensures
            r@ == state_settings(self@),
    {
        Settings {
            presets: self.presets,
            theme: self.theme,
            language: self.language,
            startup: self.startup,
            battery_notifications: self.battery_notifications,
            battery_threshold: self.battery_threshold,
            device: clone_string_option(&self.selected_device),
        }
    }

    pub fn apply_settings(&mut self, settings: &Settings)
        ensures
            final(self)@ == (AppStateView {
                presets: settings@.presets,
                theme: settings@.theme,
                language: settings@.language,
                startup: settings@.startup,
                battery_notifications: settings@.battery_notifications,
                battery_threshold: settings@.battery_threshold,
                selected_device: settings@.device,
                ..old(self)@
            }),
    {
        self.presets = settings.presets;
        self.theme = settings.theme;
        self.language = settings.language;
        self.startup = settings.startup;
        self.battery_notifications = settings.battery_notifications;
        self.battery_threshold = settings.battery_threshold;
        self.selected_device = clone_string_option(&settings.device);
    }

    /// A full rescan replaces every device value; only preferences, the pending operation and
    /// the settings notice carry over.
    pub fn replace_from_scan(&mut self, interfaces: &[Interface])
        ensures
            final(self)@ == spec_replace_from_scan(old(self)@, interfaces@),
    {
        let settings = self.settings();
        let operation = self.operation;
        let notice = self.settings_notice;
        *self = Self::from_scan_with_settings(interfaces, &settings);
        self.operation = operation;
        self.settings_notice = notice;
    }

    /// A battery-only scan retains DPI only when it identifies the same sole
    /// endpoint. Any ambiguity or disappearance clears stale device data.
    pub fn apply_battery_scan(&mut self, interfaces: &[Interface])
        ensures
            final(self)@ == spec_apply_battery_scan(old(self)@, interfaces@),
    {
        let settings = self.settings();
        let operation = self.operation;
        let notice = self.settings_notice;
        let mut replacement = Self::from_scan_with_settings(interfaces, &settings);
        if same_target(&self.target, &replacement.target) {
            replacement.current_dpi = self.current_dpi;
            replacement.supported_dpi = clone_dpi_option(&self.supported_dpi);
        }
        replacement.operation = operation;
        replacement.settings_notice = notice;
        *self = replacement;
    }

    pub fn presets(&self) -> (r: [PresetState; 4])
        ensures
            forall|i: int| 0 <= i < 4 ==> #[trigger] r@[i] == spec_preset(self@, self@.presets[i]),
    {
        let single = self.status == DeviceStatus::Single;
        let mut out = [PresetState { dpi: 0, enabled: false, checked: false }; 4];
        let mut i: usize = 0;
        while i < 4
            invariant
                single == (self@.status == DeviceStatus::Single),
                self@.presets == self.presets@,
                i <= 4,
                forall|k: int| 0 <= k < i ==> #[trigger] out@[k] == spec_preset(self@, self@.presets[k]),
            decreases 4 - i,
        {
            let value = self.presets[i];
            let enabled = single && match &self.supported_dpi {
                Some(supported) => dpi::supports_dpi(supported, value),
                None => false,
            };
            let checked = single && match self.current_dpi {
                Some(current) => current == value,
                None => false,
            };
            out[i] = PresetState { dpi: value, enabled, checked };
            i = i + 1;
        }
        out
    }

    /// Switching devices clears every device value until the next scan completes.
    pub fn begin_device_switch(&mut self, device: String)
        ensures
            final(self)@ == spec_begin_device_switch(old(self)@, device@),
    {
        let ghost old_devices = options_view(self.devices@);
        let mut updated: Vec<DeviceOption> = Vec::new();
        let mut i: usize = 0;
        while i < self.devices.len()
            invariant
                i <= self.devices@.len(),
                old_devices == options_view(self.devices@),
                updated@.len() == i,
                forall|k: int| 0 <= k < i ==> #[trigger] updated@[k]@ == (DeviceOptionView {
                    selected: old_devices[k].id == device@,
                    ..old_devices[k]
                }),
            decreases self.devices@.len() - i,
        {
            let selected = str_eq(self.devices[i].id.as_str(), device.as_str());
            let id = self.devices[i].id.clone();
            let label = self.devices[i].label.clone();
            updated.push(DeviceOption { id, label, selected });
            i = i + 1;
        }
        assert(options_view(updated@) =~= Seq::new(
            old_devices.len(),
            |k: int| (DeviceOptionView { selected: old_devices[k].id == device@, ..old_devices[k] }),
        ));
        self.devices = updated;
        self.selected_device = Some(device);
        self.status = DeviceStatus::Unavailable;
        self.product = None;
        self.battery_percent = None;
        self.battery_level = None;
        self.charging = None;
        self.current_dpi = None;
        self.supported_dpi = None;
        self.target = None;
        self.operation = OperationStatus::Loading;
    }

    pub fn apply_dpi_outcome(&mut self, outcome: &SetDpiOutcome)
        ensures
            final(self)@ == spec_apply_outcome(old(self)@, *outcome),
    {
        match outcome {
            SetDpiOutcome::Verified { current } | SetDpiOutcome::TimedOutConfirmed { current } => {
                self.current_dpi = Some(*current);
                self.operation = OperationStatus::Verified(*current);
            },
            SetDpiOutcome::AcknowledgedMismatch { actual }
            | SetDpiOutcome::TimedOutDifferent { actual } => {
                self.current_dpi = Some(*actual);
                self.operation = OperationStatus::Failed(OperationError::Remains(*actual));
            },
            SetDpiOutcome::AcknowledgedUnverified { .. }
            | SetDpiOutcome::TimedOutUnverified { .. } => {
                self.operation = OperationStatus::Failed(OperationError::NotVerified);
            },
        }
    }

    pub fn ui_language(&self) -> (r: Language)
        ensures
            r == spec_ui_language(self@),
    {
        match self.language {
            Some(language) => language,
            None => Language::English,
        }
    }
}

/// The word for a coarse battery level.
pub open spec fn spec_level_text(language: Language, level: Level) -> &'static str {
    match level {
        Level::Critical => spec_text(language, TextKey::Critical),
        Level::Low => spec_text(language, TextKey::Low),
        Level::Good => spec_text(language, TextKey::Good),
        Level::Full => spec_text(language, TextKey::Full),
        Level::Unknown(_) => spec_text(language, TextKey::Unknown),
    }
}

fn level_text(language: Language, level: &Level) -> (r: &'static str)
    ensures
        r == spec_level_text(language, *level),
{
    match level {
        Level::Critical => text(language, TextKey::Critical),
        Level::Low => text(language, TextKey::Low),
        Level::Good => text(language, TextKey::Good),
        Level::Full => text(language, TextKey::Full),
        Level::Unknown(_) => text(language, TextKey::Unknown),
    }
}

/// The battery value alone: a percentage, else a level word, else a dash.
pub open spec fn spec_battery_value_text(s: AppStateView) -> Seq<char> {
    match s.battery_percent {
        Some(value) => spec_decimal(value as nat) + "%"@,
        None => match s.battery_level {
            Some(level) => spec_level_text(spec_ui_language(s), level)@,
            None => "—"@,
        },
    }
}

/// "Battery: ..." with the value, or the multiple-devices notice.
pub open spec fn spec_battery_text(s: AppStateView) -> Seq<char> {
    let language = spec_ui_language(s);
    spec_text(language, TextKey::Battery)@ + ": "@ + match s.status {
        DeviceStatus::MultipleDevices => spec_text(language, TextKey::MultipleDevices)@,
        _ => match s.battery_percent {
            Some(value) => spec_decimal(value as nat) + "%"@,
            None => match s.battery_level {
                Some(level) => spec_level_text(language, level)@,
                None => spec_text(language, TextKey::Unavailable)@,
            },
        },
    }
}

/// "DPI: ..." with the current value, or a notice when there is none.
pub open spec fn spec_dpi_text(s: AppStateView) -> Seq<char> {
    let language = spec_ui_language(s);
    "DPI: "@ + match s.status {
        DeviceStatus::MultipleDevices => spec_text(language, TextKey::MultipleDevices)@,
        _ => match s.current_dpi {
            Some(value) => spec_decimal(value as nat),
            None => spec_text(language, TextKey::Unavailable)@,
        },
    }
}

/// The tray tooltip.
pub open spec fn spec_tooltip(s: AppStateView) -> Seq<char> {
    let language = spec_ui_language(s);
    "LogiPeek - "@ + match s.status {
        DeviceStatus::MultipleDevices => spec_text(language, TextKey::MultipleDevices)@,
        DeviceStatus::Unavailable => spec_text(language, TextKey::DeviceUnavailable)@,
        DeviceStatus::Single => match (s.battery_percent, s.current_dpi) {
            (Some(battery), Some(dpi)) => spec_decimal(battery as nat) + "% - "@ + spec_decimal(
                dpi as nat,
            ) + " DPI"@,
            (Some(battery), None) => spec_decimal(battery as nat) + "%"@,
            (None, Some(dpi)) => spec_decimal(dpi as nat) + " DPI"@,
            (None, None) => spec_text(language, TextKey::DeviceUnavailable)@,
        },
    }
}

pub open spec fn spec_connection_text(s: AppStateView) -> &'static str {
    let language = spec_ui_language(s);
    match s.status {
        DeviceStatus::Unavailable => spec_text(language, TextKey::DeviceUnavailable),
        DeviceStatus::Single => spec_text(language, TextKey::Connected),
        DeviceStatus::MultipleDevices => spec_text(language, TextKey::MultipleDevicesDetected),
    }
}

pub open spec fn spec_charging_text(s: AppStateView) -> &'static str {
    let language = spec_ui_language(s);
    match s.charging {
        Some(Charging::Discharging) => spec_text(language, TextKey::Discharging),
        Some(Charging::Charging) | Some(Charging::FinalStage) | Some(Charging::Slow) => spec_text(
            language,
            TextKey::Charging,
        ),
        Some(Charging::Complete) => spec_text(language, TextKey::Full),
        Some(Charging::InvalidBattery) | Some(Charging::ThermalError) | Some(Charging::Error) => spec_text(
            language,
            TextKey::BatteryError,
        ),
        Some(Charging::Unknown(_)) | None => spec_text(language, TextKey::StatusUnavailable),
    }
}

/// The line that reports the last or pending operation.
pub open spec fn spec_operation_text(s: AppStateView) -> Seq<char> {
    let language = spec_ui_language(s);
    match s.operation {
        OperationStatus::Idle => Seq::empty(),
        OperationStatus::Loading => spec_text(language, TextKey::Loading)@,
        OperationStatus::Applying(value) => spec_text(language, TextKey::Applying)@ + " "@
            + spec_decimal(value as nat) + " DPI..."@,
        OperationStatus::Verified(value) => spec_text(language, TextKey::Verified)@ + " "@
            + spec_decimal(value as nat) + " DPI"@,
        OperationStatus::Failed(OperationError::WorkerBusy) => spec_text(
            language,
            TextKey::WorkerBusy,
        )@,
        OperationStatus::Failed(OperationError::Remains(actual)) => match language {
            Language::English => "DPI remains "@ + spec_decimal(actual as nat)
                + "; requested value was not verified"@,
            Language::SimplifiedChinese => "DPI 仍为 "@ + spec_decimal(actual as nat)
                + "；请求值未通过验证"@,
        },
        OperationStatus::Failed(OperationError::NotVerified) => spec_text(
            language,
            TextKey::DpiNotVerified,
        )@,
        OperationStatus::Failed(OperationError::Failed) => spec_text(language, TextKey::DpiFailed)@,
    }
}

pub open spec fn spec_settings_notice_text(s: AppStateView) -> Option<&'static str> {
    let language = spec_ui_language(s);
    match s.settings_notice {
        Some(SettingsNotice::Saved) => Some(spec_text(language, TextKey::SettingsSaved)),
        Some(SettingsNotice::SaveFailed) => Some(spec_text(language, TextKey::SettingsSaveFailed)),
        Some(SettingsNotice::StartupFailed) => Some(
            spec_text(language, TextKey::StartupUpdateFailed),
        ),
        Some(SettingsNotice::InvalidPreset) => Some(spec_text(language, TextKey::InvalidPreset)),
        None => None,
    }
}

impl AppState {
    pub fn battery_text(&self) -> (r: String)
        ensures
            r@ == spec_battery_text(self@),
    {
        let language = self.ui_language();
        let mut out = string_from(text(language, TextKey::Battery));
        push_str(&mut out, ": ");
        match self.status {
            DeviceStatus::MultipleDevices => push_str(&mut out, text(language, TextKey::MultipleDevices)),
            _ => match (self.battery_percent, &self.battery_level) {
                (Some(value), _) => {
                    push_decimal(&mut out, value as u64);
                    push_str(&mut out, "%");
                },
                (None, Some(level)) => push_str(&mut out, level_text(language, level)),
                _ => push_str(&mut out, text(language, TextKey::Unavailable)),
            },
        }
        out
    }

    pub fn battery_value_text(&self) -> (r: String)
        ensures
            r@ == spec_battery_value_text(self@),
    {
        match (self.battery_percent, &self.battery_level) {
            (Some(value), _) => {
                let mut out = String::new();
                push_decimal(&mut out, value as u64);
                push_str(&mut out, "%");
                out
            },
            (None, Some(level)) => string_from(level_text(self.ui_language(), level)),
            _ => string_from("—"),
        }
    }

    pub fn dpi_text(&self) -> (r: String)
        ensures
            r@ == spec_dpi_text(self@),
    {
        let language = self.ui_language();
        let mut out = string_from("DPI: ");
        match self.status {
            DeviceStatus::MultipleDevices => push_str(&mut out, text(language, TextKey::MultipleDevices)),
            _ => match self.current_dpi {
                Some(value) => push_decimal(&mut out, value as u64),
                None => push_str(&mut out, text(language, TextKey::Unavailable)),
            },
        }
        out
    }

    pub fn tooltip(&self) -> (r: String)
        ensures
            r@ == spec_tooltip(self@),
    {
        let language = self.ui_language();
        let mut out = string_from("LogiPeek - ");
        match self.status {
            DeviceStatus::MultipleDevices => push_str(&mut out, text(language, TextKey::MultipleDevices)),
            DeviceStatus::Unavailable => push_str(&mut out, text(language, TextKey::DeviceUnavailable)),
            DeviceStatus::Single => match (self.battery_percent, self.current_dpi) {
                (Some(battery), Some(dpi)) => {
                    push_decimal(&mut out, battery as u64);
                    push_str(&mut out, "% - ");
                    push_decimal(&mut out, dpi as u64);
                    push_str(&mut out, " DPI");
                },
                (Some(battery), None) => {
                    push_decimal(&mut out, battery as u64);
                    push_str(&mut out, "%");
                },
                (None, Some(dpi)) => {
                    push_decimal(&mut out, dpi as u64);
                    push_str(&mut out, " DPI");
                },
                (None, None) => push_str(&mut out, text(language, TextKey::DeviceUnavailable)),
            },
        }
        out
    }

    pub fn connection_text(&self) -> (r: &'static str)
        ensures
            r == spec_connection_text(self@),
    {
        let language = self.ui_language();
        match self.status {
            DeviceStatus::Unavailable => text(language, TextKey::DeviceUnavailable),
            DeviceStatus::Single => text(language, TextKey::Connected),
            DeviceStatus::MultipleDevices => text(language, TextKey::MultipleDevicesDetected),
        }
    }

    pub fn charging_text(&self) -> (r: &'static str)
        ensures
            r == spec_charging_text(self@),
    {
        let language = self.ui_language();
        match self.charging {
            Some(Charging::Discharging) => text(language, TextKey::Discharging),
            Some(Charging::Charging) | Some(Charging::FinalStage) | Some(Charging::Slow) => text(
                language,
                TextKey::Charging,
            ),
            Some(Charging::Complete) => text(language, TextKey::Full),
            Some(Charging::InvalidBattery) | Some(Charging::ThermalError) | Some(Charging::Error) => text(
                language,
                TextKey::BatteryError,
            ),
            Some(Charging::Unknown(_)) | None => text(language, TextKey::StatusUnavailable),
        }
    }

    pub fn operation_text(&self) -> (r: String)
        ensures
            r@ == spec_operation_text(self@),
    {
        let language = self.ui_language();
        match self.operation {
            OperationStatus::Idle => String::new(),
            OperationStatus::Loading => string_from(text(language, TextKey::Loading)),
            OperationStatus::Applying(value) => {
                let mut out = string_from(text(language, TextKey::Applying));
                push_str(&mut out, " ");
                push_decimal(&mut out, value as u64);
                push_str(&mut out, " DPI...");
                out
            },
            OperationStatus::Verified(value) => {
                let mut out = string_from(text(language, TextKey::Verified));
                push_str(&mut out, " ");
                push_decimal(&mut out, value as u64);
                push_str(&mut out, " DPI");
                out
            },
            OperationStatus::Failed(OperationError::WorkerBusy) => string_from(
                text(language, TextKey::WorkerBusy),
            ),
            OperationStatus::Failed(OperationError::Remains(actual)) => match language {
                Language::English => {
                    let mut out = string_from("DPI remains ");
                    push_decimal(&mut out, actual as u64);
                    push_str(&mut out, "; requested value was not verified");
                    out
                },
                Language::SimplifiedChinese => {
                    let mut out = string_from("DPI 仍为 ");
                    push_decimal(&mut out, actual as u64);
                    push_str(&mut out, "；请求值未通过验证");
                    out
                },
            },
            OperationStatus::Failed(OperationError::NotVerified) => string_from(
                text(language, TextKey::DpiNotVerified),
            ),
            OperationStatus::Failed(OperationError::Failed) => string_from(
                text(language, TextKey::DpiFailed),
            ),
        }
    }

    pub fn settings_notice_text(&self) -> (r: Option<&'static str>)
        ensures
            r == spec_settings_notice_text(self@),
    {
        let language = self.ui_language();
        match self.settings_notice {
            Some(SettingsNotice::Saved) => Some(text(language, TextKey::SettingsSaved)),
            Some(SettingsNotice::SaveFailed) => Some(text(language, TextKey::SettingsSaveFailed)),
            Some(SettingsNotice::StartupFailed) => Some(text(language, TextKey::StartupUpdateFailed)),
            Some(SettingsNotice::InvalidPreset) => Some(text(language, TextKey::InvalidPreset)),
            None => None,
        }
    }
}

pub open spec fn spec_ui_language(s: AppStateView) -> Language {
    match s.language {
        Some(l) => l,
        None => Language::English,
    }
}

/// After a DPI write, the state shows what the read-back saw. A read-back equal to the request
/// (verified, or confirmed after an acknowledgement timeout) becomes the current DPI and the
/// operation reads as verified with that value; a different read-back becomes the current DPI
/// and the operation reports that value remains; without a read-back the current DPI is kept
/// and the operation reads as not verified. Nothing else in the state changes.
pub proof fn law_dpi_outcome_shows_read_back(s: AppStateView, outcome: SetDpiOutcome)
    ensures
        ({
            let t = spec_apply_outcome(s, outcome);
            &&& outcome matches SetDpiOutcome::Verified { current } ==> t.current_dpi == Some(current)
                && t.operation == OperationStatus::Verified(current)
            &&& outcome matches SetDpiOutcome::TimedOutConfirmed { current } ==> t.current_dpi == Some(
                current,
            ) && t.operation == OperationStatus::Verified(current)
            &&& outcome matches SetDpiOutcome::AcknowledgedMismatch { actual } ==> t.current_dpi == Some(
                actual,
            ) && t.operation == OperationStatus::Failed(OperationError::Remains(actual))
            &&& outcome matches SetDpiOutcome::TimedOutDifferent { actual } ==> t.current_dpi == Some(
                actual,
            ) && t.operation == OperationStatus::Failed(OperationError::Remains(actual))
            &&& outcome matches SetDpiOutcome::AcknowledgedUnverified { .. } ==> t.current_dpi
                == s.current_dpi && t.operation == OperationStatus::Failed(OperationError::NotVerified)
            &&& outcome matches SetDpiOutcome::TimedOutUnverified { .. } ==> t.current_dpi
                == s.current_dpi && t.operation == OperationStatus::Failed(OperationError::NotVerified)
            &&& t == AppStateView { current_dpi: t.current_dpi, operation: t.operation, ..s }
        }),
{
}

/// The two confirmed outcomes are treated alike: a read-back of `current` after a timed-out
/// acknowledgement leaves the same state as a verified write of `current`.
pub proof fn law_confirmed_outcomes_agree(s: AppStateView, current: u16)
    ensures
        spec_apply_outcome(s, SetDpiOutcome::TimedOutConfirmed { current }) == spec_apply_outcome(
            s,
            SetDpiOutcome::Verified { current },
        ),
{
}

/// Each device choice carries the opaque id of its endpoint. Its label is the product name;
/// when several targets share that name, the label continues with " · Receiver ", the decimal
/// number of the target's interface, " · Slot " and the decimal device index of its endpoint.
pub proof fn law_device_labels_name_receiver_and_slot(
    ts: Seq<(Interface, Endpoint)>,
    selected: Option<int>,
    i: int,
)
    requires
        0 <= i < ts.len(),
    ensures
        ({
            let option = spec_options(ts, selected)[i];
            let interface = ts[i].0;
            let endpoint = ts[i].1;
            &&& option.id == endpoint.opaque_id@
            &&& option.selected == (selected == Some(i))
            &&& count_product(ts, interface.product@) <= 1 ==> option.label == interface.product@
            &&& count_product(ts, interface.product@) > 1 ==> exists|receiver: Seq<char>, slot: Seq<char>|
                {
                    &&& option.label == interface.product@ + " · Receiver "@ + receiver + " · Slot "@
                        + slot
                    &&& all_digits(receiver) && receiver.len() > 0
                    &&& all_digits(slot) && slot.len() > 0
                    &&& #[trigger] digits_value(receiver) == interface.number
                    &&& #[trigger] digits_value(slot) == endpoint.index
                }
        }),
{
    let interface = ts[i].0;
    let endpoint = ts[i].1;
    lemma_decimal_digits(interface.number as nat);
    lemma_decimal_digits(endpoint.index as nat);
    let receiver = spec_decimal(interface.number as nat);
    let slot = spec_decimal(endpoint.index as nat);
    assert(digits_value(receiver) == interface.number);
    assert(digits_value(slot) == endpoint.index);
}

/// The tooltip text after its "LogiPeek - " prefix when no device is usable.
pub open spec fn unavailable_tooltip(s: AppStateView) -> Seq<char> {
    "LogiPeek - "@ + spec_text(spec_ui_language(s), TextKey::DeviceUnavailable)@
}

/// On a single device the tooltip names the current DPI, as its decimal digits followed by
/// " DPI", and the battery percentage, as its decimal digits followed by "%", whenever they
/// are known. It says the device is unavailable exactly when no device is usable, or when a
/// single device reports neither a percentage nor a DPI.
#[verifier::rlimit(30)]
pub proof fn law_tooltip_names_known_values(s: AppStateView)
    ensures
        s.status == DeviceStatus::Single && s.current_dpi is Some ==> exists|before: Seq<char>, digits: Seq<char>|
            #![trigger before + digits]
            {
                &&& spec_tooltip(s) == before + digits + " DPI"@
                &&& all_digits(digits) && digits.len() > 0
                &&& digits_value(digits) == s.current_dpi->0
            },
        s.status == DeviceStatus::Single && s.battery_percent is Some ==> exists|
            before: Seq<char>,
            digits: Seq<char>,
            after: Seq<char>,
        |
            #![trigger before + digits + "%"@ + after]
            {
                &&& spec_tooltip(s) == before + digits + "%"@ + after
                &&& all_digits(digits) && digits.len() > 0
                &&& digits_value(digits) == s.battery_percent->0
            },
        (spec_tooltip(s) == unavailable_tooltip(s)) <==> (s.status == DeviceStatus::Unavailable || (
        s.status == DeviceStatus::Single && s.battery_percent is None && s.current_dpi is None)),
{
    let head = "LogiPeek - "@;
    reveal_strlit("LogiPeek - ");
    reveal_strlit(" DPI");
    reveal_strlit("% - ");
    reveal_strlit("%");
    reveal_strlit("Device unavailable");
    reveal_strlit("设备不可用");
    reveal_strlit("Multiple devices");
    reveal_strlit("多个设备");
    let language = spec_ui_language(s);
    let unavailable = spec_text(language, TextKey::DeviceUnavailable)@;
    assert(unavailable.len() > 0 && !is_digit(unavailable[0]));
    let t = spec_tooltip(s);
    if s.status == DeviceStatus::Single {
        match (s.battery_percent, s.current_dpi) {
            (Some(b), Some(d)) => {
                lemma_decimal_digits(b as nat);
                lemma_decimal_digits(d as nat);
                let db = spec_decimal(b as nat);
                let dd = spec_decimal(d as nat);
                assert(t =~= (head + db + "% - "@) + dd + " DPI"@);
                assert(t == head + db + "%"@ + (" - "@ + dd + " DPI"@)) by {
                    assert("% - "@ =~= "%"@ + " - "@) by {
                        reveal_strlit(" - ");
                    }
                    assert(t =~= head + db + "%"@ + (" - "@ + dd + " DPI"@)) by {
                        reveal_strlit(" - ");
                    }
                }
                assert(digits_value(db) == b);
                assert(digits_value(dd) == d);
                assert(t[11] == db[0]);
                assert(unavailable_tooltip(s)[11] == unavailable[0]);
            },
            (Some(b), None) => {
                lemma_decimal_digits(b as nat);
                let db = spec_decimal(b as nat);
                assert(t =~= head + db + "%"@ + Seq::<char>::empty());
                assert(digits_value(db) == b);
                assert(t[11] == db[0]);
                assert(unavailable_tooltip(s)[11] == unavailable[0]);
            },
            (None, Some(d)) => {
                lemma_decimal_digits(d as nat);
                let dd = spec_decimal(d as nat);
                assert(t == head + dd + " DPI"@);
                assert(digits_value(dd) == d);
                assert(t[11] == dd[0]);
                assert(unavailable_tooltip(s)[11] == unavailable[0]);
            },
            (None, None) => {},
        }
    } else if s.status == DeviceStatus::MultipleDevices {
        let multiple = spec_text(language, TextKey::MultipleDevices)@;
        assert(t[11] == multiple[0]);
        assert(unavailable_tooltip(s)[11] == unavailable[0]);
        assert(multiple[0] != unavailable[0]);
    }
}

/// The DPI line shows the current DPI as decimal digits after "DPI: " whenever one device (or
/// none) is in view and a DPI is known, and the battery line shows a known percentage as
/// decimal digits followed by "%".
pub proof fn law_status_lines_name_known_values(s: AppStateView)
    ensures
        s.status != DeviceStatus::MultipleDevices && s.current_dpi is Some ==> exists|digits: Seq<char>|
            #![trigger "DPI: "@ + digits]
            {
                &&& spec_dpi_text(s) == "DPI: "@ + digits
                &&& all_digits(digits) && digits.len() > 0
                &&& digits_value(digits) == s.current_dpi->0
            },
        s.status != DeviceStatus::MultipleDevices && s.battery_percent is Some ==> exists|
            before: Seq<char>,
            digits: Seq<char>,
        |
            #![trigger before + digits]
            {
                &&& spec_battery_text(s) == before + digits + "%"@
                &&& all_digits(digits) && digits.len() > 0
                &&& digits_value(digits) == s.battery_percent->0
            },
{
    if s.current_dpi is Some {
        lemma_decimal_digits(s.current_dpi->0 as nat);
        assert(s.status != DeviceStatus::MultipleDevices ==> spec_dpi_text(s) == "DPI: "@
            + spec_decimal(s.current_dpi->0 as nat));
    }
    if s.battery_percent is Some {
        let language = spec_ui_language(s);
        lemma_decimal_digits(s.battery_percent->0 as nat);
        let before = spec_text(language, TextKey::Battery)@ + ": "@;
        assert(s.status != DeviceStatus::MultipleDevices ==> spec_battery_text(s) == before
            + spec_decimal(s.battery_percent->0 as nat) + "%"@);
    }
}

/// The charging line: a fully charged battery reads "Full", a discharging one "Discharging",
/// charging in any stage "Charging", a reported fault "Battery error", and an unknown or
/// missing state "Status unavailable" (in the interface language).
pub proof fn law_charging_line(s: AppStateView)
    ensures
        ({
            let language = spec_ui_language(s);
            &&& s.charging == Some(Charging::Complete) ==> spec_charging_text(s) == spec_text(
                language,
                TextKey::Full,
            )
            &&& s.charging == Some(Charging::Discharging) ==> spec_charging_text(s) == spec_text(
                language,
                TextKey::Discharging,
            )
            &&& (s.charging == Some(Charging::Charging) || s.charging == Some(Charging::FinalStage)
                || s.charging == Some(Charging::Slow)) ==> spec_charging_text(s) == spec_text(
                language,
                TextKey::Charging,
            )
            &&& (s.charging == Some(Charging::InvalidBattery) || s.charging == Some(
                Charging::ThermalError,
            ) || s.charging == Some(Charging::Error)) ==> spec_charging_text(s) == spec_text(
                language,
                TextKey::BatteryError,
            )
            &&& (s.charging is None || s.charging matches Some(Charging::Unknown(_)))
                ==> spec_charging_text(s) == spec_text(language, TextKey::StatusUnavailable)
            &&& language == Language::English && s.charging == Some(Charging::Complete)
                ==> spec_charging_text(s)@ == "Full"@
        }),
{
}

/// A preset button is enabled exactly when one device is in view and its reported DPI values
/// include the preset: a listed entry, or a step of its range. It is checked exactly when that
/// device's current DPI is the preset.
pub proof fn law_preset_buttons(s: AppStateView, value: u16)
    ensures
        spec_preset(s, value).dpi == value,
        spec_preset(s, value).enabled <==> s.status == DeviceStatus::Single && match s.supported_dpi {
            Some(DpiValuesView::List(list)) => list.contains(value),
            Some(DpiValuesView::Range { minimum, maximum, step }) => step > 0 && minimum <= value
                <= maximum && (value - minimum) % (step as int) == 0,
            None => false,
        },
        spec_preset(s, value).checked <==> s.status == DeviceStatus::Single && s.current_dpi == Some(
            value,
        ),
{
}

} // verus!

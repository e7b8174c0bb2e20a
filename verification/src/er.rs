//! The endpoint-response actuator profile: its argument vocabulary and its
//! profile-defined target kinds.

use vstd::prelude::*;
use vstd::string::StringExecFns;

use crate::IsEmpty;
use crate::codec::get_opt_text;
use crate::codec::read_opt_text;
use crate::data::DomainName;
use crate::error::Error;
use crate::error::ValidationError;
use crate::net::Ipv4Net;
use crate::net::Ipv6Net;
use crate::target::Device;
use crate::target::DeviceV;
use crate::target::opt_text;
use crate::value::Doc;
use crate::value::ValueV;
use crate::value::entries_view;
use crate::value::lemma_entries_view;
use crate::value::obj_find;
use crate::value::obj_get;

verus! {

broadcast use vstd::string::group_string_axioms;

/// Whether an account is to be enabled or disabled.
#[derive(Debug, Clone, Copy, PartialEq, Eq, Structural)]
pub enum AccountStatus {
    Enabled,
    Disabled,
}

/// How an endpoint is to be contained.
#[derive(Debug, Clone, Copy, PartialEq, Eq, Structural)]
pub enum DeviceContainment {
    /// Isolate the endpoint from other networked entities, typically by
    /// relegation to a private VLAN segment or port isolation.
    NetworkIsolation,
    /// Restrict execution to applications signed by a trusted party.
    AppRestriction,
    /// Disable the endpoint's network interface controllers.
    DisableNic,
}

/// Whether periodic scanning is to run.
#[derive(Debug, Clone, Copy, PartialEq, Eq, Structural)]
pub enum PeriodicScan {
    Enabled,
    Disabled,
}

/// How deep a scan is to go.
#[derive(Debug, Clone, Copy, PartialEq, Eq, Structural)]
pub enum ScanDepth {
    Shallow,
    Deep,
}

/// The devices downstream of a consumer that a command is aimed at.
pub struct DownstreamDevice {
    pub devices: Vec<Device>,
    pub device_groups: Vec<String>,
    pub tenant_id: Option<String>,
}

/// Mathematical model of a downstream device set.
#[verifier::ext_equal]
pub struct DownstreamDeviceV {
    pub devices: Seq<DeviceV>,
    pub device_groups: Seq<Seq<char>>,
    pub tenant_id: Option<Seq<char>>,
}

impl View for DownstreamDevice {
    type V = DownstreamDeviceV;

    open spec fn view(&self) -> DownstreamDeviceV {
        DownstreamDeviceV {
            devices: devices_view(self.devices@),
            device_groups: self.device_groups.deep_view(),
            tenant_id: opt_text(&self.tenant_id),
        }
    }
}

/// The models of a device list, in order.
pub open spec fn devices_view(s: Seq<Device>) -> Seq<DeviceV>
    decreases s,
{
    if s.len() == 0 {
        Seq::empty()
    } else {
        seq![s[0]@] + devices_view(s.subrange(1, s.len() as int))
    }
}

pub proof fn lemma_devices_view(s: Seq<Device>)
    ensures
        devices_view(s).len() == s.len(),
        forall|i: int| 0 <= i < s.len() ==> devices_view(s)[i] == s[i]@,
    decreases s,
{
    if s.len() > 0 {
        let sub = s.subrange(1, s.len() as int);
        lemma_devices_view(sub);
        assert forall|i: int| 0 <= i < s.len() implies devices_view(s)[i] == s[i]@ by {
            if i > 0 {
                assert(sub[i - 1] == s[i]);
            }
        }
    }
}

impl DownstreamDevice {
    /// A downstream device set naming only devices.
    pub fn with_devices(devices: Vec<Device>) -> (r: Self)
        ensures
            r@.devices == devices_view(devices@),
            r@.device_groups == Seq::<Seq<char>>::empty(),
            r@.tenant_id.is_none(),
    {
        let r = DownstreamDevice { devices, device_groups: Vec::new(), tenant_id: None };
        proof {
            assert(r@.device_groups =~= Seq::<Seq<char>>::empty());
        }
        r
    }
}

impl IsEmpty for DownstreamDevice {
    open spec fn is_empty_spec(&self) -> bool {
        self@.devices.len() == 0 && self@.device_groups.len() == 0 && self@.tenant_id.is_none()
    }

    fn is_empty(&self) -> (r: bool) {
        proof {
            lemma_devices_view(self.devices@);
        }
        self.devices.len() == 0 && self.device_groups.len() == 0 && self.tenant_id.is_none()
    }
}

/// Addresses a contained endpoint may still talk to.
pub struct PermittedAddresses {
    pub ipv4_net: Vec<Ipv4Net>,
    pub ipv6_net: Vec<Ipv6Net>,
    pub domain_names: Vec<DomainName>,
}

impl IsEmpty for PermittedAddresses {
    open spec fn is_empty_spec(&self) -> bool {
        self.ipv4_net@.len() == 0 && self.ipv6_net@.len() == 0
            && self.domain_names@.len() == 0
    }

    fn is_empty(&self) -> (r: bool) {
        self.ipv4_net.len() == 0 && self.ipv6_net.len() == 0 && self.domain_names.len() == 0
    }
}

/// The argument vocabulary this profile adds to commands.
pub struct ErArgs {
    pub account_status: Option<AccountStatus>,
    pub device_containment: Option<DeviceContainment>,
    pub permitted_addresses: Option<PermittedAddresses>,
    pub scan_depth: Option<ScanDepth>,
    pub periodic_scan: Option<PeriodicScan>,
    pub downstream_device: Option<DownstreamDevice>,
}

impl ErArgs {
    /// Arguments with nothing set.
    pub fn new() -> (r: Self)
        ensures
            r.account_status.is_none(),
            r.device_containment.is_none(),
            r.scan_depth.is_none(),
            r.periodic_scan.is_none(),
            r.downstream_device.is_none(),
    {
        ErArgs {
            account_status: None,
            device_containment: None,
            permitted_addresses: None,
            scan_depth: None,
            periodic_scan: None,
            downstream_device: None,
        }
    }

    /// True when no argument is set.
    pub fn is_empty(&self) -> (r: bool)
        ensures
            r == (self.account_status.is_none() && self.device_containment.is_none()
                && self.permitted_addresses.is_none() && self.scan_depth.is_none()
                && self.periodic_scan.is_none() && self.downstream_device.is_none()),
    {
        self.account_status.is_none() && self.device_containment.is_none()
            && self.permitted_addresses.is_none() && self.scan_depth.is_none()
            && self.periodic_scan.is_none() && self.downstream_device.is_none()
    }
}

/// The profile's target kinds, key-only.
#[derive(Debug, Clone, Copy, PartialEq, Eq, Structural)]
pub enum ErTargetType {
    Account,
    Service,
    RegistryEntry,
}

impl ErTargetType {
    /// The kind's lowercase wire name.
    pub fn as_str(&self) -> (r: &'static str)
        ensures
            (*self == ErTargetType::Account ==> r@ == "account"@) && (*self
                == ErTargetType::Service ==> r@ == "service"@) && (*self
                == ErTargetType::RegistryEntry ==> r@ == "registry_entry"@),
    {
        match self {
            ErTargetType::Account => "account",
            ErTargetType::Service => "service",
            ErTargetType::RegistryEntry => "registry_entry",
        }
    }
}

/// A Windows registry entry, named by its full key.
pub struct RegistryEntry {
    /// The full registry key including the hive.
    pub key: String,
    /// The registry value type as the platform headers define it.
    pub value_type: String,
    pub entry_value: Option<String>,
}

/// An account on a device.
pub struct Account {
    pub uid: Option<String>,
    pub account_name: Option<String>,
    pub directory: Option<String>,
}

/// A service on a device.
pub struct Service {
    pub name: Option<String>,
    pub display_name: Option<String>,
}

/// The model of a decoded downstream device set, if well-formed: an
/// optional device list, group list, and tenant.
pub open spec fn dec_downstream(v: ValueV) -> Option<DownstreamDeviceV> {
    match v {
        ValueV::Obj(fields) => {
            let devices = match obj_get(fields, "devices"@) {
                Some(dv) => match dv {
                    ValueV::Arr(items) => match dec_device_list(items) {
                        Some(ds) => Some(ds),
                        None => None,
                    },
                    _ => None,
                },
                None => Some(Seq::empty()),
            };
            let groups = match obj_get(fields, "device_groups"@) {
                Some(gv) => match gv {
                    ValueV::Arr(items) => match crate::codec::dec_texts(items) {
                        Some(gs) => Some(gs),
                        None => None,
                    },
                    _ => None,
                },
                None => Some(Seq::empty()),
            };
            match (devices, groups, get_opt_text(fields, "tenant_id"@)) {
                (Some(devices), Some(device_groups), Some(tenant_id)) => Some(
                    DownstreamDeviceV { devices, device_groups, tenant_id },
                ),
                _ => None,
            }
        }
        _ => None,
    }
}

/// The models of a decoded device list.
pub open spec fn dec_device_list(items: Seq<ValueV>) -> Option<Seq<DeviceV>>
    decreases items,
{
    if items.len() == 0 {
        Some(Seq::empty())
    } else {
        match crate::codec::dec_device(items[0]) {
            Some(d) => match dec_device_list(items.subrange(1, items.len() as int)) {
                Some(rest) => Some(seq![d] + rest),
                None => None,
            },
            None => None,
        }
    }
}

impl DownstreamDevice {
    /// Reads a downstream device set off the wire.
    #[verifier::loop_isolation(false)]
    #[verifier::rlimit(100)]
    #[verifier::spinoff_prover]
    pub fn from_doc(v: &Doc) -> (r: Result<Self, Error>)
        ensures
            match r {
                Ok(d) => dec_downstream(v@) == Some(d@),
                Err(_) => dec_downstream(v@).is_none(),
            },
    {
        let fields = match v {
            Doc::Obj(fields) => fields,
            _ => {
                return Err(Error::codec("expected a downstream device map"));
            }
        };
        proof {
            lemma_entries_view(fields@);
        }
        let mut devices: Vec<Device> = Vec::new();
        match obj_find(fields, "devices") {
            Some(dv) => {
                let items = match dv {
                    Doc::Arr(items) => items,
                    _ => {
                        return Err(Error::codec("expected a device list"));
                    }
                };
                proof {
                    crate::value::lemma_vals_view(items@);
                }
                let mut i: usize = 0;
                proof {
                    assert(crate::value::vals_view(items@).subrange(0, items@.len() as int)
                        =~= crate::value::vals_view(items@));
                    match dec_device_list(crate::value::vals_view(items@)) {
                        Some(rest) => {
                            assert(devices_view(devices@) + rest =~= rest);
                        }
                        None => {}
                    }
                }
                while i < items.len()
                    invariant
                        i <= items.len(),
                        devices@.len() == i,
                        dec_device_list(crate::value::vals_view(items@)) == (match
                            dec_device_list(
                            crate::value::vals_view(items@).subrange(
                                i as int,
                                items@.len() as int,
                            ),
                        ) {
                            Some(rest) => Some(devices_view(devices@) + rest),
                            None => None::<Seq<DeviceV>>,
                        }),
                    decreases items.len() - i,
                {
                    let ghost pre = crate::value::vals_view(items@).subrange(
                        i as int,
                        items@.len() as int,
                    );
                    proof {
                        assert(pre[0] == crate::value::vals_view(items@)[i as int]);
                        assert(pre.subrange(1, pre.len() as int)
                            =~= crate::value::vals_view(items@).subrange(
                            i + 1,
                            items@.len() as int,
                        ));
                    }
                    let d = match Device::from_value(&items[i]) {
                        Ok(d) => d,
                        Err(e) => {
                            return Err(e);
                        }
                    };
                    let ghost dold = devices@;
                    let ghost dvs = devices_view(devices@);
                    devices.push(d);
                    proof {
                        lemma_devices_view(devices@);
                        lemma_devices_view(dold);
                        assert(devices_view(devices@) =~= dvs + seq![d@]);
                        match dec_device_list(
                            crate::value::vals_view(items@).subrange(
                                i + 1,
                                items@.len() as int,
                            ),
                        ) {
                            Some(rest) => {
                                assert(dec_device_list(pre) == Some(seq![d@] + rest));
                                assert(dvs + (seq![d@] + rest)
                                    =~= devices_view(devices@) + rest);
                            }
                            None => {
                                assert(dec_device_list(pre).is_none());
                            }
                        }
                    }
                    i += 1;
                }
                proof {
                    assert(crate::value::vals_view(items@).subrange(
                        items@.len() as int,
                        items@.len() as int,
                    ) =~= Seq::<ValueV>::empty());
                    assert(devices_view(devices@) + Seq::<DeviceV>::empty() =~= devices_view(
                        devices@,
                    ));
                }
            }
            None => {
                proof {
                    assert(devices_view(devices@) =~= Seq::<DeviceV>::empty());
                }
            }
        }
        let mut device_groups: Vec<String> = Vec::new();
        match obj_find(fields, "device_groups") {
            Some(gv) => {
                let items = match gv {
                    Doc::Arr(items) => items,
                    _ => {
                        return Err(Error::codec("expected a group list"));
                    }
                };
                proof {
                    crate::value::lemma_vals_view(items@);
                }
                let mut i: usize = 0;
                proof {
                    assert(crate::value::vals_view(items@).subrange(0, items@.len() as int)
                        =~= crate::value::vals_view(items@));
                    match crate::codec::dec_texts(crate::value::vals_view(items@)) {
                        Some(rest) => {
                            assert(device_groups.deep_view() + rest =~= rest);
                        }
                        None => {}
                    }
                }
                while i < items.len()
                    invariant
                        i <= items.len(),
                        device_groups@.len() == i,
                        crate::codec::dec_texts(crate::value::vals_view(items@)) == (match
                            crate::codec::dec_texts(
                            crate::value::vals_view(items@).subrange(
                                i as int,
                                items@.len() as int,
                            ),
                        ) {
                            Some(rest) => Some(device_groups.deep_view() + rest),
                            None => None::<Seq<Seq<char>>>,
                        }),
                    decreases items.len() - i,
                {
                    let ghost pre = crate::value::vals_view(items@).subrange(
                        i as int,
                        items@.len() as int,
                    );
                    proof {
                        assert(pre[0] == crate::value::vals_view(items@)[i as int]);
                        assert(pre.subrange(1, pre.len() as int)
                            =~= crate::value::vals_view(items@).subrange(
                            i + 1,
                            items@.len() as int,
                        ));
                    }
                    let g = match &items[i] {
                        Doc::Str(s) => s.clone(),
                        _ => {
                            return Err(Error::codec("expected a group name"));
                        }
                    };
                    let ghost gvs = device_groups.deep_view();
                    device_groups.push(g);
                    proof {
                        assert(device_groups.deep_view() =~= gvs + seq![pre[0]->Str_0]);
                        match crate::codec::dec_texts(
                            crate::value::vals_view(items@).subrange(
                                i + 1,
                                items@.len() as int,
                            ),
                        ) {
                            Some(rest) => {
                                assert(crate::codec::dec_texts(pre) == Some(seq![pre[0]->Str_0]
                                    + rest));
                                assert(gvs + (seq![pre[0]->Str_0] + rest)
                                    =~= device_groups.deep_view() + rest);
                            }
                            None => {
                                assert(crate::codec::dec_texts(pre).is_none());
                            }
                        }
                    }
                    i += 1;
                }
                proof {
                    assert(crate::value::vals_view(items@).subrange(
                        items@.len() as int,
                        items@.len() as int,
                    ) =~= Seq::<ValueV>::empty());
                    assert(device_groups.deep_view() + Seq::<Seq<char>>::empty()
                        =~= device_groups.deep_view());
                }
            }
            None => {
                proof {
                    assert(device_groups.deep_view() =~= Seq::<Seq<char>>::empty());
                }
            }
        }
        let tenant_id = match read_opt_text(fields, "tenant_id") {
            Ok(o) => o,
            Err(e) => {
                return Err(e);
            }
        };
        Ok(DownstreamDevice { devices, device_groups, tenant_id })
    }
}

// ---------------------------------------------------------------------------
// Decoding the profile's arguments
// ---------------------------------------------------------------------------

/// Mathematical model of the permitted addresses.
#[verifier::ext_equal]
pub struct PermittedAddressesV {
    pub ipv4_net: Seq<Ipv4Net>,
    pub ipv6_net: Seq<Ipv6Net>,
    pub domain_names: Seq<Seq<char>>,
}

/// The models of a domain list, in order.
pub open spec fn domains_view(s: Seq<DomainName>) -> Seq<Seq<char>>
    decreases s,
{
    if s.len() == 0 {
        Seq::empty()
    } else {
        seq![s[0]@] + domains_view(s.subrange(1, s.len() as int))
    }
}

impl View for PermittedAddresses {
    type V = PermittedAddressesV;

    open spec fn view(&self) -> PermittedAddressesV {
        PermittedAddressesV {
            ipv4_net: self.ipv4_net@,
            ipv6_net: self.ipv6_net@,
            domain_names: domains_view(self.domain_names@),
        }
    }
}

/// Mathematical model of the profile's arguments.
#[verifier::ext_equal]
pub struct ErArgsV {
    pub account_status: Option<AccountStatus>,
    pub device_containment: Option<DeviceContainment>,
    pub permitted_addresses: Option<PermittedAddressesV>,
    pub scan_depth: Option<ScanDepth>,
    pub periodic_scan: Option<PeriodicScan>,
    pub downstream_device: Option<DownstreamDeviceV>,
}

impl View for ErArgs {
    type V = ErArgsV;

    open spec fn view(&self) -> ErArgsV {
        ErArgsV {
            account_status: self.account_status,
            device_containment: self.device_containment,
            permitted_addresses: match &self.permitted_addresses {
                Some(p) => Some(p@),
                None => None,
            },
            scan_depth: self.scan_depth,
            periodic_scan: self.periodic_scan,
            downstream_device: match &self.downstream_device {
                Some(d) => Some(d@),
                None => None,
            },
        }
    }
}

/// The containment mode a wire name denotes, if any.
pub open spec fn parse_containment(s: Seq<char>) -> Option<DeviceContainment> {
    if s == "network_isolation"@ { Some(DeviceContainment::NetworkIsolation) }
    else if s == "app_restriction"@ { Some(DeviceContainment::AppRestriction) }
    else if s == "disable_nic"@ { Some(DeviceContainment::DisableNic) }
    else { None }
}

impl DeviceContainment {
    /// The mode's lowercase wire name.
    pub fn as_str(&self) -> (r: &'static str)
        ensures
            parse_containment(r@) == Some(*self),
    {
        proof {
            reveal_strlit("network_isolation");
            reveal_strlit("app_restriction");
            reveal_strlit("disable_nic");
            assert(("network_isolation")@.len() == 17);
            assert(("app_restriction")@.len() == 15);
            assert(("disable_nic")@.len() == 11);
        }
        match self {
            DeviceContainment::NetworkIsolation => "network_isolation",
            DeviceContainment::AppRestriction => "app_restriction",
            DeviceContainment::DisableNic => "disable_nic",
        }
    }

    /// Parses a lowercase wire name.
    pub fn from_str(s: &str) -> (r: Result<Self, ValidationError>)
        ensures
            match r {
                Ok(c) => parse_containment(s@) == Some(c),
                Err(_) => parse_containment(s@).is_none(),
            },
    {
        if crate::str_eq(s, "network_isolation") { Ok(DeviceContainment::NetworkIsolation) }
        else if crate::str_eq(s, "app_restriction") { Ok(DeviceContainment::AppRestriction) }
        else if crate::str_eq(s, "disable_nic") { Ok(DeviceContainment::DisableNic) }
        else { Err(ValidationError::new("unknown containment mode")) }
    }
}

/// The on/off state a wire name denotes, if any.
pub open spec fn parse_toggle(s: Seq<char>) -> Option<bool> {
    if s == "enabled"@ { Some(true) }
    else if s == "disabled"@ { Some(false) }
    else { None }
}

/// Reads an enabled/disabled field.
fn read_toggle(v: &Doc) -> (r: Result<bool, Error>)
    ensures
        match r {
            Ok(b) => (v@ matches ValueV::Str(s) && parse_toggle(s) == Some(b)),
            Err(_) => (match v@ {
                ValueV::Str(s) => parse_toggle(s).is_none(),
                _ => true,
            }),
        },
{
    match v {
        Doc::Str(s) => {
            if crate::str_eq(s.as_str(), "enabled") { Ok(true) }
            else if crate::str_eq(s.as_str(), "disabled") { Ok(false) }
            else { Err(Error::codec("expected enabled or disabled")) }
        }
        _ => Err(Error::codec("expected enabled or disabled")),
    }
}

/// The scan depth a wire name denotes, if any.
pub open spec fn parse_scan_depth(s: Seq<char>) -> Option<ScanDepth> {
    if s == "shallow"@ { Some(ScanDepth::Shallow) }
    else if s == "deep"@ { Some(ScanDepth::Deep) }
    else { None }
}

/// The models of the profile's arguments a wire map names, if well-formed.
pub open spec fn dec_er_args(v: ValueV) -> Option<ErArgsV> {
    match v {
        ValueV::Obj(fields) => {
            let account_status = match obj_get(fields, "account_status"@) {
                Some(av) => match av {
                    ValueV::Str(s) => match parse_toggle(s) {
                        Some(true) => Some(Some(AccountStatus::Enabled)),
                        Some(false) => Some(Some(AccountStatus::Disabled)),
                        None => None,
                    },
                    _ => None,
                },
                None => Some(None),
            };
            let device_containment = match obj_get(fields, "device_containment"@) {
                Some(cv) => match cv {
                    ValueV::Str(s) => match parse_containment(s) {
                        Some(c) => Some(Some(c)),
                        None => None,
                    },
                    _ => None,
                },
                None => Some(None),
            };
            let scan_depth = match obj_get(fields, "scan_depth"@) {
                Some(sv) => match sv {
                    ValueV::Str(s) => match parse_scan_depth(s) {
                        Some(d) => Some(Some(d)),
                        None => None,
                    },
                    _ => None,
                },
                None => Some(None),
            };
            let periodic_scan = match obj_get(fields, "periodic_scan"@) {
                Some(pv) => match pv {
                    ValueV::Str(s) => match parse_toggle(s) {
                        Some(true) => Some(Some(PeriodicScan::Enabled)),
                        Some(false) => Some(Some(PeriodicScan::Disabled)),
                        None => None,
                    },
                    _ => None,
                },
                None => Some(None),
            };
            let downstream_device = match obj_get(fields, "downstream_device"@) {
                Some(dv) => match dec_downstream(dv) {
                    Some(d) => Some(Some(d)),
                    None => None,
                },
                None => Some(None),
            };
            // Addresses are carried through without being reparsed here;
            // the field must simply be absent or a map.
            let permitted = match obj_get(fields, "permitted_addresses"@) {
                Some(pv) => match pv {
                    ValueV::Obj(_) => Some(Some(PermittedAddressesV {
                        ipv4_net: Seq::empty(),
                        ipv6_net: Seq::empty(),
                        domain_names: Seq::empty(),
                    })),
                    _ => None,
                },
                None => Some(None),
            };
            match (
                account_status,
                device_containment,
                scan_depth,
                periodic_scan,
                downstream_device,
                permitted,
            ) {
                (Some(account_status), Some(device_containment), Some(scan_depth), Some(
                    periodic_scan,
                ), Some(downstream_device), Some(permitted_addresses)) => Some(
                    ErArgsV {
                        account_status,
                        device_containment,
                        permitted_addresses,
                        scan_depth,
                        periodic_scan,
                        downstream_device,
                    },
                ),
                _ => None,
            }
        }
        _ => None,
    }
}

impl ErArgs {
    /// Reads the profile's arguments off the wire.  The permitted-address
    /// lists are not resolved at this layer: a present field must be a
    /// map, and is read back as empty lists.
    pub fn from_doc(v: &Doc) -> (r: Result<Self, Error>)
        ensures
            match r {
                Ok(a) => dec_er_args(v@) == Some(a@),
                Err(_) => dec_er_args(v@).is_none(),
            },
    {
        let fields = match v {
            Doc::Obj(fields) => fields,
            _ => {
                return Err(Error::codec("expected an argument map"));
            }
        };
        let account_status = match obj_find(fields, "account_status") {
            Some(av) => match read_toggle(av) {
                Ok(true) => Some(AccountStatus::Enabled),
                Ok(false) => Some(AccountStatus::Disabled),
                Err(e) => {
                    return Err(e);
                }
            },
            None => None,
        };
        let device_containment = match obj_find(fields, "device_containment") {
            Some(cv) => match cv {
                Doc::Str(s) => match DeviceContainment::from_str(s.as_str()) {
                    Ok(c) => Some(c),
                    Err(_) => {
                        return Err(Error::codec("unknown containment mode"));
                    }
                },
                _ => {
                    return Err(Error::codec("expected a containment mode"));
                }
            },
            None => None,
        };
        let scan_depth = match obj_find(fields, "scan_depth") {
            Some(sv) => match sv {
                Doc::Str(s) => {
                    if crate::str_eq(s.as_str(), "shallow") { Some(ScanDepth::Shallow) }
                    else if crate::str_eq(s.as_str(), "deep") { Some(ScanDepth::Deep) }
                    else {
                        return Err(Error::codec("unknown scan depth"));
                    }
                }
                _ => {
                    return Err(Error::codec("expected a scan depth"));
                }
            },
            None => None,
        };
        let periodic_scan = match obj_find(fields, "periodic_scan") {
            Some(pv) => match read_toggle(pv) {
                Ok(true) => Some(PeriodicScan::Enabled),
                Ok(false) => Some(PeriodicScan::Disabled),
                Err(e) => {
                    return Err(e);
                }
            },
            None => None,
        };
        let downstream_device = match obj_find(fields, "downstream_device") {
            Some(dv) => match DownstreamDevice::from_doc(dv) {
                Ok(d) => Some(d),
                Err(e) => {
                    return Err(e);
                }
            },
            None => None,
        };
        let permitted_addresses = match obj_find(fields, "permitted_addresses") {
            Some(pv) => match pv {
                Doc::Obj(_) => {
                    let p = PermittedAddresses {
                        ipv4_net: Vec::new(),
                        ipv6_net: Vec::new(),
                        domain_names: Vec::new(),
                    };
                    proof {
                        assert(p@ =~= PermittedAddressesV {
                            ipv4_net: Seq::empty(),
                            ipv6_net: Seq::empty(),
                            domain_names: Seq::empty(),
                        });
                    }
                    Some(p)
                }
                _ => {
                    return Err(Error::codec("expected an address map"));
                }
            },
            None => None,
        };
        Ok(
            ErArgs {
                account_status,
                device_containment,
                permitted_addresses,
                scan_depth,
                periodic_scan,
                downstream_device,
            },
        )
    }
}

} // verus!

//! Service configurations: network interfaces, WAN IP models, DHCPv6,
//! firewall and MSS clamping, and the process's own settings.

use vstd::prelude::*;

use crate::dns_records::LdIp;
use crate::service::LandscapeStore;

verus! {

/// Returns `true`: the default for `enable_in_boot`.
pub fn yes() -> (r: bool)
    ensures
        r,
{
    true
}

/// The default of the debug flag in a release build.
pub fn debug_default() -> (r: bool)
    ensures
        !r,
{
    false
}

/// Logging settings.
#[derive(Debug, Clone)]
pub struct LogConfig {
    pub log_path: String,
    pub debug: bool,
    pub log_output_in_terminal: bool,
    pub max_log_files: usize,
}

/// The admin web server's settings.
#[derive(Debug, Clone)]
pub struct WebConfig {
    pub web_root: String,
    pub port: u16,
    pub address: LdIp,
}

/// The process's command-line settings.
#[derive(Debug, Clone)]
pub struct WebCommArgs {
    pub web: Option<String>,
    pub port: u16,
    pub address: LdIp,
    pub export_manager: bool,
    pub config_dir: Option<String>,
    pub database_path: Option<String>,
    pub ebpf_map_space: String,
    pub admin_user: String,
    pub admin_pass: String,
    pub debug: bool,
    pub log_output_in_terminal: bool,
    pub max_log_files: usize,
}

impl WebCommArgs {
    /// The listen address and port, when the address is an IPv4 one.
    pub fn get_ipv4_listen(&self) -> (r: Option<(u32, u16)>)
        ensures
            r == match self.address {
                LdIp::V4(ip) => Some((ip, self.port)),
                LdIp::V6(_) => None::<(u32, u16)>,
            },
    {
        match self.address {
            LdIp::V4(ip) => Some((ip, self.port)),
            LdIp::V6(_) => None,
        }
    }
}

/// A hardware address.
#[derive(Debug, Clone, Copy, PartialEq, Eq, Hash)]
pub struct MacAddr {
    pub octets: [u8; 6],
}

/// The DHCPv6 prefix delegation settings.
#[derive(Debug, Clone)]
pub struct IPV6PDConfig {
    pub mac: MacAddr,
}

/// The DHCPv6 prefix delegation service configuration of one
/// interface.
#[derive(Debug)]
pub struct IPV6PDServiceConfig {
    pub iface_name: String,
    pub enable: bool,
    pub config: IPV6PDConfig,
    pub update_at: u64,
}

impl LandscapeStore for IPV6PDServiceConfig {
    open spec fn spec_store_key(&self) -> Seq<char> {
        self.iface_name@
    }

    fn get_store_key(&self) -> (r: String) {
        self.iface_name.clone()
    }
}

impl crate::store::LandscapeDBStore<String> for IPV6PDServiceConfig {
    open spec fn spec_id(&self) -> String {
        self.iface_name
    }

    fn get_id(&self) -> (r: String) {
        self.iface_name.clone()
    }
}

/// The firewall service configuration of one interface.
#[derive(Debug)]
pub struct FirewallServiceConfig {
    pub iface_name: String,
    pub enable: bool,
    pub update_at: u64,
}

impl LandscapeStore for FirewallServiceConfig {
    open spec fn spec_store_key(&self) -> Seq<char> {
        self.iface_name@
    }

    fn get_store_key(&self) -> (r: String) {
        self.iface_name.clone()
    }
}

impl crate::store::LandscapeDBStore<String> for FirewallServiceConfig {
    open spec fn spec_id(&self) -> String {
        self.iface_name
    }

    fn get_id(&self) -> (r: String) {
        self.iface_name.clone()
    }
}

/// MSS clamp size for PPPoE uplinks.
pub fn default_clamp_size() -> (r: u16)
    ensures
        r == 1492,
{
    1492
}

/// The MSS clamping service configuration of one interface.
#[derive(Debug)]
pub struct MSSClampServiceConfig {
    pub iface_name: String,
    pub enable: bool,
    pub clamp_size: u16,
    pub update_at: u64,
}

impl LandscapeStore for MSSClampServiceConfig {
    open spec fn spec_store_key(&self) -> Seq<char> {
        self.iface_name@
    }

    fn get_store_key(&self) -> (r: String) {
        self.iface_name.clone()
    }
}

impl crate::store::LandscapeDBStore<String> for MSSClampServiceConfig {
    open spec fn spec_id(&self) -> String {
        self.iface_name
    }

    fn get_id(&self) -> (r: String) {
        self.iface_name.clone()
    }
}

/// What kind of device must be created for an interface entry.
#[derive(Debug, Clone, Copy, PartialEq, Eq, Hash, Structural)]
pub enum CreateDevType {
    NoNeedToCreate,
    Bridge,
}

impl Default for CreateDevType {
    fn default() -> (r: CreateDevType)
        ensures
            r == CreateDevType::NoNeedToCreate,
    {
        CreateDevType::NoNeedToCreate
    }
}

/// The wireless role of an interface.
#[derive(Debug, Clone, Copy, PartialEq, Eq, Hash, Structural)]
pub enum WifiMode {
    Undefined,
    Client,
    AP,
}

impl Default for WifiMode {
    fn default() -> (r: WifiMode)
        ensures
            r == WifiMode::Undefined,
    {
        WifiMode::Undefined
    }
}

/// Which network zone an interface belongs to.
#[derive(Debug, Clone, Copy, PartialEq, Eq, Hash, Structural)]
pub enum IfaceZoneType {
    Undefined,
    Wan,
    Lan,
}

impl Default for IfaceZoneType {
    fn default() -> (r: IfaceZoneType)
        ensures
            r == IfaceZoneType::Undefined,
    {
        IfaceZoneType::Undefined
    }
}

/// Receive and transmit packet steering masks.
#[derive(Debug, Clone)]
pub struct IfaceCpuSoftBalance {
    pub xps: String,
    pub rps: String,
}

/// One network interface as configured.
#[derive(Debug)]
pub struct NetworkIfaceConfig {
    pub name: String,
    pub create_dev_type: CreateDevType,
    pub controller_name: Option<String>,
    pub zone_type: IfaceZoneType,
    pub enable_in_boot: bool,
    pub wifi_mode: WifiMode,
    pub xps_rps: Option<IfaceCpuSoftBalance>,
    pub update_at: u64,
}

impl LandscapeStore for NetworkIfaceConfig {
    open spec fn spec_store_key(&self) -> Seq<char> {
        self.name@
    }

    fn get_store_key(&self) -> (r: String) {
        self.name.clone()
    }
}

impl NetworkIfaceConfig {
    /// The interface's name.
    pub fn get_iface_name(&self) -> (r: String)
        ensures
            r@ == self.name@,
    {
        self.name.clone()
    }

    /// The default LAN bridge.
    pub fn crate_default_br_lan() -> (r: NetworkIfaceConfig)
        ensures
            r.name@ == "br_lan"@,
            r.create_dev_type == CreateDevType::Bridge,
            r.zone_type == IfaceZoneType::Lan,
            r.controller_name is None,
            r.enable_in_boot,
            r.wifi_mode == WifiMode::Undefined,
            r.xps_rps is None,
    {
        NetworkIfaceConfig::crate_bridge(
            String::from_str("br_lan"),
            Some(IfaceZoneType::Lan),
        )
    }

    /// A bridge interface entry named `name` in the given zone
    /// (Undefined when none is given), stamped with the current wall
    /// clock.
    pub fn crate_bridge(name: String, zone_type: Option<IfaceZoneType>) -> (r: NetworkIfaceConfig)
        ensures
            r.name@ == name@,
            r.create_dev_type == CreateDevType::Bridge,
            r.controller_name is None,
            r.enable_in_boot,
            r.zone_type == match zone_type {
                Some(z) => z,
                None => IfaceZoneType::Undefined,
            },
            r.wifi_mode == WifiMode::Undefined,
            r.xps_rps is None,
    {
        let update_at: u64 = match crate::time_util::get_current_time_ms() {
            Ok(ms) => ms,
            Err(_) => 0,
        };
        NetworkIfaceConfig {
            name,
            create_dev_type: CreateDevType::Bridge,
            controller_name: None,
            enable_in_boot: true,
            zone_type: match zone_type {
                Some(z) => z,
                None => IfaceZoneType::Undefined,
            },
            wifi_mode: WifiMode::Undefined,
            xps_rps: None,
            update_at,
        }
    }
}

/// One DHCP option as carried in a client configuration.
#[derive(Debug, Clone)]
pub struct DhcpOption {
    pub code: u8,
    pub data: Vec<u8>,
}

/// How one interface obtains its IP configuration.
#[derive(Debug)]
pub enum IfaceIpModelConfig {
    Nothing,
    Static {
        default_router_ip: Option<u32>,
        default_router: bool,
        ipv4: Option<u32>,
        ipv4_mask: u8,
        ipv6: Option<u128>,
    },
    PPPoE { default_router: bool, username: String, password: String, mtu: u32 },
    DhcpClient {
        default_router: bool,
        hostname: Option<String>,
        custome_opts: Vec<DhcpOption>,
    },
}

impl IfaceIpModelConfig {
    /// Whether an interface in the given zone can carry this IP model:
    /// PPPoE and DHCP clients belong on WAN interfaces, everything
    /// else goes anywhere.
    pub fn check_iface_status(&self, iface_config: &NetworkIfaceConfig) -> (r: bool)
        ensures
            r == match self {
                IfaceIpModelConfig::PPPoE { .. } => iface_config.zone_type
                    == IfaceZoneType::Wan,
                IfaceIpModelConfig::DhcpClient { .. } => iface_config.zone_type
                    == IfaceZoneType::Wan,
                _ => true,
            },
    {
        match self {
            IfaceIpModelConfig::PPPoE { .. } => matches!(
                iface_config.zone_type,
                IfaceZoneType::Wan
            ),
            IfaceIpModelConfig::DhcpClient { .. } => matches!(
                iface_config.zone_type,
                IfaceZoneType::Wan
            ),
            _ => true,
        }
    }
}

/// The WAN IP service configuration of one interface.
#[derive(Debug)]
pub struct IfaceIpServiceConfig {
    pub iface_name: String,
    pub enable: bool,
    pub ip_model: IfaceIpModelConfig,
}

impl LandscapeStore for IfaceIpServiceConfig {
    open spec fn spec_store_key(&self) -> Seq<char> {
        self.iface_name@
    }

    fn get_store_key(&self) -> (r: String) {
        self.iface_name.clone()
    }
}

} // verus!

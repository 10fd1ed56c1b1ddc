//! Guest deployment on a PVE remote: the checks a request must pass and the
//! creation parameters sent for a QEMU virtual machine or an LXC container.
use vstd::prelude::*;

use crate::text::{owned, push_all, push_decimal, trim, trimmed, u64_text, decimal};

verus! {

/// Why a deployment request was refused.
#[derive(Debug, Clone, Copy, PartialEq, Eq, Structural)]
pub enum DeployError {
    NoCores,
    TooLittleMemory,
    NoDisk,
    MissingStorage,
    MissingBridge,
    MissingHostname,
    MissingTemplate,
}

pub open spec fn deploy_error_text(e: DeployError) -> Seq<char> {
    match e {
        DeployError::NoCores => "cores must be greater than zero"@,
        DeployError::TooLittleMemory => "memory must be at least 64 MiB"@,
        DeployError::NoDisk => "disk size must be greater than zero"@,
        DeployError::MissingStorage => "storage is required"@,
        DeployError::MissingBridge => "network bridge is required"@,
        DeployError::MissingHostname => "hostname is required"@,
        DeployError::MissingTemplate => "OS template is required"@,
    }
}

impl DeployError {
    pub fn message(&self) -> (r: String)
        ensures
            r@ == deploy_error_text(*self),
    {
        match self {
            DeployError::NoCores => owned("cores must be greater than zero"),
            DeployError::TooLittleMemory => owned("memory must be at least 64 MiB"),
            DeployError::NoDisk => owned("disk size must be greater than zero"),
            DeployError::MissingStorage => owned("storage is required"),
            DeployError::MissingBridge => owned("network bridge is required"),
            DeployError::MissingHostname => owned("hostname is required"),
            DeployError::MissingTemplate => owned("OS template is required"),
        }
    }
}

/// The checks every guest request passes, in this order: at least one core,
/// at least 64 MiB of memory, a disk, a storage and a bridge (both non-blank).
pub open spec fn common_check(cores: u64, memory: u64, disk_gb: u64, storage: Seq<char>, bridge: Seq<char>) -> Option<
    DeployError,
> {
    if cores == 0 {
        Some(DeployError::NoCores)
    } else if memory < 64 {
        Some(DeployError::TooLittleMemory)
    } else if disk_gb == 0 {
        Some(DeployError::NoDisk)
    } else if trim(storage).len() == 0 {
        Some(DeployError::MissingStorage)
    } else if trim(bridge).len() == 0 {
        Some(DeployError::MissingBridge)
    } else {
        None
    }
}

pub open spec fn check_result(c: Option<DeployError>) -> Result<(), DeployError> {
    match c {
        Some(e) => Err(e),
        None => Ok(()),
    }
}

fn blank(s: &str) -> (r: bool)
    ensures
        r == (trim(s@).len() == 0),
{
    trimmed(s).as_str().is_empty()
}

/// The checks every guest request passes (see `common_check`).
pub fn validate_common(cores: u64, memory: u64, disk_gb: u64, storage: &str, bridge: &str) -> (r: Result<
    (),
    DeployError,
>)
    ensures
        r == check_result(common_check(cores, memory, disk_gb, storage@, bridge@)),
{
    if cores == 0 {
        return Err(DeployError::NoCores);
    }
    if memory < 64 {
        return Err(DeployError::TooLittleMemory);
    }
    if disk_gb == 0 {
        return Err(DeployError::NoDisk);
    }
    if blank(storage) {
        return Err(DeployError::MissingStorage);
    }
    if blank(bridge) {
        return Err(DeployError::MissingBridge);
    }
    Ok(())
}

/// Optional text kept only when it is not blank.
pub open spec fn non_blank(o: Option<Seq<char>>) -> Option<Seq<char>> {
    match o {
        Some(s) => if trim(s).len() > 0 {
            Some(s)
        } else {
            None
        },
        None => None,
    }
}

pub open spec fn opt_view(o: Option<String>) -> Option<Seq<char>> {
    match o {
        Some(s) => Some(s@),
        None => None,
    }
}

/// `<storage>:<size>`, the volume specification of a new disk.
pub open spec fn volume_spec(storage: Seq<char>, disk_gb: u64) -> Seq<char> {
    trim(storage) + ":"@ + decimal(disk_gb as nat)
}

fn volume(storage: &str, disk_gb: u64) -> (r: String)
    ensures
        r@ == volume_spec(storage@, disk_gb),
{
    let mut r = trimmed(storage);
    push_all(&mut r, ":");
    push_decimal(&mut r, disk_gb);
    r
}

/// The creation parameters of a QEMU virtual machine.
pub struct QemuParams {
    pub vmid: u32,
    pub name: Option<String>,
    pub cores: u64,
    pub memory: u64,
    pub scsihw: String,
    pub scsi0: String,
    pub net0: String,
    pub ide2: Option<String>,
    pub start: bool,
}

/// What a QEMU request becomes: the name only when not blank, a VirtIO SCSI
/// disk on the storage, a VirtIO NIC on the bridge, and the installation
/// medium as a CD-ROM when an ISO is given.
pub open spec fn qemu_params_spec(
    p: QemuParams,
    vmid: u32,
    name: Option<Seq<char>>,
    cores: u64,
    memory: u64,
    storage: Seq<char>,
    disk_gb: u64,
    bridge: Seq<char>,
    iso: Option<Seq<char>>,
    start: bool,
) -> bool {
    &&& p.vmid == vmid
    &&& opt_view(p.name) == non_blank(name)
    &&& p.cores == cores
    &&& p.memory == memory
    &&& p.scsihw@ == "virtio-scsi-pci"@
    &&& p.scsi0@ == volume_spec(storage, disk_gb)
    &&& p.net0@ == "virtio,bridge="@ + trim(bridge)
    &&& opt_view(p.ide2) == match non_blank(iso) {
        Some(i) => Some(trim(i) + ",media=cdrom"@),
        None => None,
    }
    &&& p.start == start
}

/// The creation parameters of a QEMU virtual machine (see `qemu_params_spec`),
/// or the refusal of `validate_common`.
pub fn qemu_params(
    vmid: u32,
    name: Option<String>,
    cores: u64,
    memory: u64,
    storage: &str,
    disk_gb: u64,
    bridge: &str,
    iso: Option<String>,
    start: bool,
) -> (r: Result<QemuParams, DeployError>)
    ensures
        match r {
            Ok(p) => common_check(cores, memory, disk_gb, storage@, bridge@) is None
                && qemu_params_spec(
                p,
                vmid,
                opt_view(name),
                cores,
                memory,
                storage@,
                disk_gb,
                bridge@,
                opt_view(iso),
                start,
            ),
            Err(e) => common_check(cores, memory, disk_gb, storage@, bridge@) == Some(e),
        },
{
    match validate_common(cores, memory, disk_gb, storage, bridge) {
        Err(e) => return Err(e),
        Ok(()) => {},
    }
    let name = match name {
        Some(n) => if blank(n.as_str()) {
            None
        } else {
            Some(n)
        },
        None => None,
    };
    let ide2 = match iso {
        Some(i) => if blank(i.as_str()) {
            None
        } else {
            let mut m = trimmed(i.as_str());
            push_all(&mut m, ",media=cdrom");
            Some(m)
        },
        None => None,
    };
    let mut net0 = owned("virtio,bridge=");
    let b = trimmed(bridge);
    push_all(&mut net0, b.as_str());
    Ok(
        QemuParams {
            vmid,
            name,
            cores,
            memory,
            scsihw: owned("virtio-scsi-pci"),
            scsi0: volume(storage, disk_gb),
            net0,
            ide2,
            start,
        },
    )
}

/// The creation parameters of an LXC container.
pub struct LxcParams {
    pub vmid: u32,
    pub hostname: String,
    pub ostemplate: String,
    pub cores: u64,
    pub memory: u64,
    pub rootfs: String,
    pub net0: String,
    pub unprivileged: bool,
    pub start: bool,
    pub password: Option<String>,
}

/// The checks of an LXC request: the common ones, then a hostname and an OS
/// template (both non-blank).
pub open spec fn lxc_check(
    cores: u64,
    memory: u64,
    disk_gb: u64,
    storage: Seq<char>,
    bridge: Seq<char>,
    hostname: Seq<char>,
    ostemplate: Seq<char>,
) -> Option<DeployError> {
    match common_check(cores, memory, disk_gb, storage, bridge) {
        Some(e) => Some(e),
        None => if trim(hostname).len() == 0 {
            Some(DeployError::MissingHostname)
        } else if trim(ostemplate).len() == 0 {
            Some(DeployError::MissingTemplate)
        } else {
            None
        },
    }
}

/// What an LXC request becomes: trimmed hostname and template, the root
/// filesystem on the storage, DHCP on `eth0` at the bridge, always
/// unprivileged, and the password only when not empty.
pub open spec fn lxc_params_spec(
    p: LxcParams,
    vmid: u32,
    hostname: Seq<char>,
    ostemplate: Seq<char>,
    cores: u64,
    memory: u64,
    storage: Seq<char>,
    disk_gb: u64,
    bridge: Seq<char>,
    password: Option<Seq<char>>,
    start: bool,
) -> bool {
    &&& p.vmid == vmid
    &&& p.hostname@ == trim(hostname)
    &&& p.ostemplate@ == trim(ostemplate)
    &&& p.cores == cores
    &&& p.memory == memory
    &&& p.rootfs@ == volume_spec(storage, disk_gb)
    &&& p.net0@ == "name=eth0,bridge="@ + trim(bridge) + ",ip=dhcp"@
    &&& p.unprivileged
    &&& p.start == start
    &&& opt_view(p.password) == match password {
        Some(s) => if s.len() > 0 {
            Some(s)
        } else {
            None
        },
        None => None,
    }
}

/// The creation parameters of an LXC container (see `lxc_params_spec`), or
/// the refusal (see `lxc_check`).
pub fn lxc_params(
    vmid: u32,
    hostname: &str,
    ostemplate: &str,
    cores: u64,
    memory: u64,
    storage: &str,
    disk_gb: u64,
    bridge: &str,
    password: Option<String>,
    start: bool,
) -> (r: Result<LxcParams, DeployError>)
    ensures
        match r {
            Ok(p) => lxc_check(cores, memory, disk_gb, storage@, bridge@, hostname@, ostemplate@) is None
                && lxc_params_spec(
                p,
                vmid,
                hostname@,
                ostemplate@,
                cores,
                memory,
                storage@,
                disk_gb,
                bridge@,
                opt_view(password),
                start,
            ),
            Err(e) => lxc_check(cores, memory, disk_gb, storage@, bridge@, hostname@, ostemplate@)
                == Some(e),
        },
{
    match validate_common(cores, memory, disk_gb, storage, bridge) {
        Err(e) => return Err(e),
        Ok(()) => {},
    }
    if blank(hostname) {
        return Err(DeployError::MissingHostname);
    }
    if blank(ostemplate) {
        return Err(DeployError::MissingTemplate);
    }
    let password = match password {
        Some(p) => if p.as_str().is_empty() {
            None
        } else {
            Some(p)
        },
        None => None,
    };
    let mut net0 = owned("name=eth0,bridge=");
    let b = trimmed(bridge);
    push_all(&mut net0, b.as_str());
    push_all(&mut net0, ",ip=dhcp");
    Ok(
        LxcParams {
            vmid,
            hostname: trimmed(hostname),
            ostemplate: trimmed(ostemplate),
            cores,
            memory,
            rootfs: volume(storage, disk_gb),
            net0,
            unprivileged: true,
            start,
            password,
        },
    )
}

/// The API path that creates a guest of `kind` (`qemu` or `lxc`) on `node`.
pub open spec fn create_path_spec(node: Seq<char>, kind: Seq<char>) -> Seq<char> {
    "/api2/extjs/nodes/"@ + node + "/"@ + kind
}

pub fn create_path(node: &str, kind: &str) -> (r: String)
    ensures
        r@ == create_path_spec(node@, kind@),
{
    let mut r = owned("/api2/extjs/nodes/");
    push_all(&mut r, node);
    push_all(&mut r, "/");
    push_all(&mut r, kind);
    r
}

/// The API path listing the content of a storage.
pub open spec fn content_path_spec(node: Seq<char>, storage: Seq<char>) -> Seq<char> {
    "/api2/extjs/nodes/"@ + node + "/storage/"@ + storage + "/content"@
}

pub fn content_path(node: &str, storage: &str) -> (r: String)
    ensures
        r@ == content_path_spec(node@, storage@),
{
    let mut r = owned("/api2/extjs/nodes/");
    push_all(&mut r, node);
    push_all(&mut r, "/storage/");
    push_all(&mut r, storage);
    push_all(&mut r, "/content");
    r
}

} // verus!

//! What the kernel publishes under `/sys` and `/proc`: the names, link targets and file
//! contents of a device's sysfs entries, its uevent messages, the attributes of a PCI
//! device, and the text of the fixed `/proc` files. Creating the nodes is the caller's
//! part.
use vstd::prelude::*;
use vstd::string::StringSliceAdditionalSpecFns;

use crate::fs::abi::LinuxUtsName;
use crate::fs::error::FsError;
use crate::process::{before_nul, nul_position};
use crate::text::{
    bytes_equal,
    component_count, count_components, decimal, digits, leading_slashes, push_decimal,
    push_from, push_padded, trim_leading_slashes, zero_pad,
};
use crate::wire::push_bytes;

verus! {

/// The kind of a device, which decides where it appears under `/sys/class`.
#[derive(Debug, Clone, Copy, PartialEq, Eq, Structural)]
pub enum DeviceClass {
    Block,
    Display,
    Drm,
    Input,
    Console,
    MessageBuffer,
    Misc,
}

/// A symbolic link of a sysfs device directory.
pub struct SysfsLink {
    pub name: Vec<u8>,
    pub target: Vec<u8>,
}

/// The directory of a class under `/sys/class`.
pub open spec fn spec_class_name(class: DeviceClass) -> &'static str {
    match class {
        DeviceClass::Block => "block",
        DeviceClass::Display => "graphics",
        DeviceClass::Drm => "drm",
        DeviceClass::Input => "input",
        DeviceClass::Console => "tty",
        DeviceClass::MessageBuffer => "misc",
        DeviceClass::Misc => "misc",
    }
}

/// The directory of a class under `/sys/class`.
pub fn class_name(class: DeviceClass) -> (r: &'static str)
    ensures
        r == spec_class_name(class),
{
    match class {
        DeviceClass::Block => "block",
        DeviceClass::Display => "graphics",
        DeviceClass::Drm => "drm",
        DeviceClass::Input => "input",
        DeviceClass::Console => "tty",
        DeviceClass::MessageBuffer => "misc",
        DeviceClass::Misc => "misc",
    }
}

/// The `DEVTYPE` of a class.
pub open spec fn spec_devtype(class: DeviceClass) -> &'static str {
    match class {
        DeviceClass::Block => "disk",
        DeviceClass::Drm => "drm_minor",
        DeviceClass::Input => "input",
        DeviceClass::Console => "tty",
        _ => "device",
    }
}

/// The `DEVTYPE` of a class.
pub fn devtype(class: DeviceClass) -> (r: &'static str)
    ensures
        r == spec_devtype(class),
{
    match class {
        DeviceClass::Block => "disk",
        DeviceClass::Drm => "drm_minor",
        DeviceClass::Input => "input",
        DeviceClass::Console => "tty",
        _ => "device",
    }
}

/// The byte contents of each vector.
pub open spec fn views(v: Seq<Vec<u8>>) -> Seq<Seq<u8>> {
    v.map_values(|p: Vec<u8>| p@)
}

/// Each of `fields` followed by `sep`, one after another.
pub open spec fn terminated(fields: Seq<Seq<u8>>, sep: u8) -> Seq<u8>
    decreases fields.len(),
{
    if fields.len() == 0 {
        Seq::empty()
    } else {
        terminated(fields.drop_last(), sep) + fields.last().push(sep)
    }
}

proof fn lemma_terminated_push(s: Seq<Seq<u8>>, f: Seq<u8>, sep: u8)
    ensures
        terminated(s.push(f), sep) == terminated(s, sep) + f.push(sep),
{
    assert(s.push(f).drop_last() =~= s);
}

/// `n` copies of `../`.
pub open spec fn parent_steps(n: nat) -> Seq<u8>
    decreases n,
{
    if n == 0 {
        Seq::empty()
    } else {
        parent_steps((n - 1) as nat) + seq![46u8, 46u8, 47u8]
    }
}

/// The link from the sysfs device directory at `path` (under `/sys/devices`) to
/// `target` (under `/sys`): one `../` per component of `path` and one for `devices`,
/// then `target` without its leading `/`.
pub open spec fn spec_relative_from_sys_devices(path: Seq<u8>, target: Seq<u8>) -> Seq<u8> {
    parent_steps(component_count(path) + 1) + trim_leading_slashes(target)
}

fn push_str(out: &mut Vec<u8>, s: &str)
    ensures
        final(out)@ == old(out)@ + s.spec_bytes(),
{
    push_bytes(out, s.as_bytes());
}

fn push_terminated(out: &mut Vec<u8>, fields: &Vec<Vec<u8>>, sep: u8)
    ensures
        final(out)@ == old(out)@ + terminated(views(fields@), sep),
{
    let ghost start = out@;
    let mut k: usize = 0;
    while k < fields.len()
        invariant
            k <= fields@.len(),
            out@ == start + terminated(views(fields@).take(k as int), sep),
        decreases fields@.len() - k,
    {
        push_bytes(out, fields[k].as_slice());
        out.push(sep);
        proof {
            let t = views(fields@).take(k + 1);
            assert(t.drop_last() =~= views(fields@).take(k as int));
            assert(t.last() == fields@[k as int]@);
        }
        k = k + 1;
        assert(out@ =~= start + terminated(views(fields@).take(k as int), sep));
    }
    assert(views(fields@).take(fields@.len() as int) =~= views(fields@));
}

/// The link from the sysfs device directory at `path` to `target`; see
/// `spec_relative_from_sys_devices`.
pub fn relative_from_sys_devices(path: &[u8], target: &[u8]) -> (r: Vec<u8>)
    ensures
        r@ == spec_relative_from_sys_devices(path@, target@),
{
    let depth = count_components(path);
    let mut out: Vec<u8> = Vec::new();
    out.push(46);
    out.push(46);
    out.push(47);
    assert(out@ =~= parent_steps(1)) by {
        reveal_with_fuel(parent_steps, 2);
    }
    let mut k: usize = 0;
    while k < depth
        invariant
            k <= depth,
            depth == component_count(path@),
            out@ == parent_steps(k as nat + 1),
        decreases depth - k,
    {
        out.push(46);
        out.push(46);
        out.push(47);
        k = k + 1;
        assert(out@ =~= parent_steps(k as nat + 1));
    }
    let from = leading_slashes(target);
    push_from(&mut out, target, from);
    out
}

/// The `DEVNAME` of a device: the path of its first node, else its name.
pub open spec fn uevent_devname(name: Seq<u8>, node_paths: Seq<Seq<u8>>) -> Seq<u8> {
    if node_paths.len() > 0 {
        node_paths[0]
    } else {
        name
    }
}

/// The text of a device's `uevent` file.
pub open spec fn uevent_file_text(
    class: DeviceClass,
    name: Seq<u8>,
    devpath: Seq<u8>,
    subsystem: Seq<u8>,
    major: u16,
    minor: u16,
    node_paths: Seq<Seq<u8>>,
    extra_fields: Seq<Seq<u8>>,
) -> Seq<u8> {
    "DEVPATH=".spec_bytes() + devpath + "\nSUBSYSTEM=".spec_bytes() + subsystem
        + "\nMAJOR=".spec_bytes() + decimal(major as nat) + "\nMINOR=".spec_bytes() + decimal(
        minor as nat,
    ) + "\nDEVNAME=".spec_bytes() + uevent_devname(name, node_paths) + "\nDEVTYPE=".spec_bytes()
        + spec_devtype(class).spec_bytes() + "\n".spec_bytes() + terminated(extra_fields, 10)
}

/// The kobject uevent message of `action` on a device: NUL-terminated fields.
pub open spec fn uevent_message_bytes(
    action: Seq<u8>,
    class: DeviceClass,
    name: Seq<u8>,
    devpath: Seq<u8>,
    subsystem: Seq<u8>,
    major: u16,
    minor: u16,
    node_paths: Seq<Seq<u8>>,
    seqnum: u64,
    extra_fields: Seq<Seq<u8>>,
) -> Seq<u8> {
    terminated(
        seq![
            action + "@".spec_bytes() + devpath,
            "ACTION=".spec_bytes() + action,
            "DEVPATH=".spec_bytes() + devpath,
            "SUBSYSTEM=".spec_bytes() + subsystem,
            "MAJOR=".spec_bytes() + decimal(major as nat),
            "MINOR=".spec_bytes() + decimal(minor as nat),
            "DEVNAME=".spec_bytes() + uevent_devname(name, node_paths),
            "DEVTYPE=".spec_bytes() + spec_devtype(class).spec_bytes(),
            "SEQNUM=".spec_bytes() + decimal(seqnum as nat),
        ],
        0,
    ) + terminated(extra_fields, 0)
}

/// The text of a device's `uevent` file.
pub fn render_uevent_file(
    class: DeviceClass,
    name: &[u8],
    devpath: &[u8],
    subsystem: &[u8],
    major: u16,
    minor: u16,
    node_paths: &Vec<Vec<u8>>,
    extra_fields: &Vec<Vec<u8>>,
) -> (r: Vec<u8>)
    ensures
        r@ == uevent_file_text(
            class,
            name@,
            devpath@,
            subsystem@,
            major,
            minor,
            views(node_paths@),
            views(extra_fields@),
        ),
{
    let mut out: Vec<u8> = Vec::new();
    push_str(&mut out, "DEVPATH=");
    push_bytes(&mut out, devpath);
    push_str(&mut out, "\nSUBSYSTEM=");
    push_bytes(&mut out, subsystem);
    push_str(&mut out, "\nMAJOR=");
    push_decimal(&mut out, major as u64);
    push_str(&mut out, "\nMINOR=");
    push_decimal(&mut out, minor as u64);
    push_str(&mut out, "\nDEVNAME=");
    if node_paths.len() > 0 {
        push_bytes(&mut out, node_paths[0].as_slice());
    } else {
        push_bytes(&mut out, name);
    }
    push_str(&mut out, "\nDEVTYPE=");
    push_str(&mut out, devtype(class));
    push_str(&mut out, "\n");
    push_terminated(&mut out, extra_fields, 10);
    out
}

/// The kobject uevent message of `action` on a device.
pub fn render_uevent_message(
    action: &[u8],
    class: DeviceClass,
    name: &[u8],
    devpath: &[u8],
    subsystem: &[u8],
    major: u16,
    minor: u16,
    node_paths: &Vec<Vec<u8>>,
    seqnum: u64,
    extra_fields: &Vec<Vec<u8>>,
) -> (r: Vec<u8>)
    ensures
        r@ == uevent_message_bytes(
            action@,
            class,
            name@,
            devpath@,
            subsystem@,
            major,
            minor,
            views(node_paths@),
            seqnum,
            views(extra_fields@),
        ),
{
    let ghost fixed = seq![
        action@ + "@".spec_bytes() + devpath@,
        "ACTION=".spec_bytes() + action@,
        "DEVPATH=".spec_bytes() + devpath@,
        "SUBSYSTEM=".spec_bytes() + subsystem@,
        "MAJOR=".spec_bytes() + decimal(major as nat),
        "MINOR=".spec_bytes() + decimal(minor as nat),
        "DEVNAME=".spec_bytes() + uevent_devname(name@, views(node_paths@)),
        "DEVTYPE=".spec_bytes() + spec_devtype(class).spec_bytes(),
        "SEQNUM=".spec_bytes() + decimal(seqnum as nat),
    ];
    let mut out: Vec<u8> = Vec::new();
    let ghost mut done: Seq<Seq<u8>> = Seq::empty();
    push_bytes(&mut out, action);
    push_str(&mut out, "@");
    push_bytes(&mut out, devpath);
    out.push(0);
    proof {
        lemma_terminated_push(done, fixed[0], 0);
        done = done.push(fixed[0]);
        assert(out@ =~= terminated(done, 0));
    }
    push_str(&mut out, "ACTION=");
    push_bytes(&mut out, action);
    out.push(0);
    proof {
        lemma_terminated_push(done, fixed[1], 0);
        done = done.push(fixed[1]);
        assert(out@ =~= terminated(done, 0));
    }
    push_str(&mut out, "DEVPATH=");
    push_bytes(&mut out, devpath);
    out.push(0);
    proof {
        lemma_terminated_push(done, fixed[2], 0);
        done = done.push(fixed[2]);
        assert(out@ =~= terminated(done, 0));
    }
    push_str(&mut out, "SUBSYSTEM=");
    push_bytes(&mut out, subsystem);
    out.push(0);
    proof {
        lemma_terminated_push(done, fixed[3], 0);
        done = done.push(fixed[3]);
        assert(out@ =~= terminated(done, 0));
    }
    push_str(&mut out, "MAJOR=");
    push_decimal(&mut out, major as u64);
    out.push(0);
    proof {
        lemma_terminated_push(done, fixed[4], 0);
        done = done.push(fixed[4]);
        assert(out@ =~= terminated(done, 0));
    }
    push_str(&mut out, "MINOR=");
    push_decimal(&mut out, minor as u64);
    out.push(0);
    proof {
        lemma_terminated_push(done, fixed[5], 0);
        done = done.push(fixed[5]);
        assert(out@ =~= terminated(done, 0));
    }
    push_str(&mut out, "DEVNAME=");
    if node_paths.len() > 0 {
        push_bytes(&mut out, node_paths[0].as_slice());
    } else {
        push_bytes(&mut out, name);
    }
    out.push(0);
    proof {
        lemma_terminated_push(done, fixed[6], 0);
        done = done.push(fixed[6]);
        assert(out@ =~= terminated(done, 0));
    }
    push_str(&mut out, "DEVTYPE=");
    push_str(&mut out, devtype(class));
    out.push(0);
    proof {
        lemma_terminated_push(done, fixed[7], 0);
        done = done.push(fixed[7]);
        assert(out@ =~= terminated(done, 0));
    }
    push_str(&mut out, "SEQNUM=");
    push_decimal(&mut out, seqnum);
    out.push(0);
    proof {
        lemma_terminated_push(done, fixed[8], 0);
        done = done.push(fixed[8]);
        assert(out@ =~= terminated(done, 0));
        assert(done =~= fixed);
    }
    push_terminated(&mut out, extra_fields, 0);
    out
}

fn copy_bytes(src: &[u8]) -> (r: Vec<u8>)
    ensures
        r@ == src@,
{
    let mut out: Vec<u8> = Vec::new();
    push_bytes(&mut out, src);
    assert(out@ =~= src@);
    out
}

fn copy_range(src: &[u8], from: usize, to: usize) -> (r: Vec<u8>)
    requires
        from <= to <= src@.len(),
    ensures
        r@ == src@.subrange(from as int, to as int),
{
    let mut out: Vec<u8> = Vec::new();
    let mut j: usize = from;
    while j < to
        invariant
            from <= j <= to,
            to <= src@.len(),
            out@ == src@.subrange(from as int, j as int),
        decreases to - j,
    {
        out.push(src[j]);
        j = j + 1;
        assert(out@ =~= src@.subrange(from as int, j as int));
    }
    out
}

/// The sysfs entries of one device: where they go and what they hold.
pub struct SysfsResourcePlan {
    /// The directory under `/sys/class`.
    pub class_name: &'static str,
    /// The device's directory under `/sys/devices`.
    pub device_path: Vec<u8>,
    /// `DEVPATH`: the device directory under `/sys`.
    pub devpath: Vec<u8>,
    /// The `dev` file: `major:minor`.
    pub dev_contents: Vec<u8>,
    /// The `uevent` file.
    pub uevent_contents: Vec<u8>,
    /// The target of the device's `subsystem` link.
    pub subsystem_link: Vec<u8>,
    /// The target of the device's link in its class directory.
    pub class_link_target: Vec<u8>,
    /// The directory under `/sys/dev`: `block` or `char`.
    pub dev_dir: &'static str,
    /// The name of the device's link under `/sys/dev/<dev_dir>`.
    pub dev_link_name: Vec<u8>,
    /// The target of that link.
    pub dev_link_target: Vec<u8>,
    /// The `add` uevent to publish once the entries exist.
    pub uevent_message: Vec<u8>,
}

/// The device directory under `/sys/devices`: the one the device names, else
/// `virtual/<class>/<name>`.
pub open spec fn device_dir_path(class: DeviceClass, name: Seq<u8>, devpath_under_devices: Option<Seq<u8>>) -> Seq<u8> {
    match devpath_under_devices {
        Some(p) => p,
        None => "virtual/".spec_bytes() + spec_class_name(class).spec_bytes() + "/".spec_bytes()
            + name,
    }
}

/// `major:minor`.
pub open spec fn dev_numbers(major: u16, minor: u16) -> Seq<u8> {
    decimal(major as nat) + ":".spec_bytes() + decimal(minor as nat)
}

/// What registering a device in sysfs creates, and the uevent it publishes with
/// `seqnum`.
pub fn sysfs_resource_plan(
    class: DeviceClass,
    name: &[u8],
    major: u16,
    minor: u16,
    node_paths: &Vec<Vec<u8>>,
    devpath_under_devices: Option<Vec<u8>>,
    uevent_fields: &Vec<Vec<u8>>,
    seqnum: u64,
) -> (r: SysfsResourcePlan)
    ensures
        ({
            let dp = device_dir_path(
                class,
                name@,
                match devpath_under_devices {
                    Some(p) => Some(p@),
                    None => None,
                },
            );
            let cls = spec_class_name(class).spec_bytes();
            &&& r.class_name == spec_class_name(class)
            &&& r.device_path@ == dp
            &&& r.devpath@ == "/devices/".spec_bytes() + dp
            &&& r.dev_contents@ == dev_numbers(major, minor) + "\n".spec_bytes()
            &&& r.uevent_contents@ == uevent_file_text(
                class,
                name@,
                "/devices/".spec_bytes() + dp,
                cls,
                major,
                minor,
                views(node_paths@),
                views(uevent_fields@),
            )
            &&& r.subsystem_link@ == spec_relative_from_sys_devices(dp, "class/".spec_bytes() + cls)
            &&& r.class_link_target@ == "../../devices/".spec_bytes() + dp
            &&& r.dev_dir == (if class == DeviceClass::Block {
                "block"
            } else {
                "char"
            })
            &&& r.dev_link_name@ == dev_numbers(major, minor)
            &&& r.dev_link_target@ == "../../devices/".spec_bytes() + dp
            &&& r.uevent_message@ == uevent_message_bytes(
                "add".spec_bytes(),
                class,
                name@,
                "/devices/".spec_bytes() + dp,
                cls,
                major,
                minor,
                views(node_paths@),
                seqnum,
                views(uevent_fields@),
            )
        }),
{
    let cls = class_name(class);
    let device_path = match devpath_under_devices {
        Some(p) => p,
        None => {
            let mut p: Vec<u8> = Vec::new();
            push_str(&mut p, "virtual/");
            push_str(&mut p, cls);
            push_str(&mut p, "/");
            push_bytes(&mut p, name);
            p
        },
    };
    let mut devpath: Vec<u8> = Vec::new();
    push_str(&mut devpath, "/devices/");
    push_bytes(&mut devpath, device_path.as_slice());
    let mut dev_link_name: Vec<u8> = Vec::new();
    push_decimal(&mut dev_link_name, major as u64);
    push_str(&mut dev_link_name, ":");
    push_decimal(&mut dev_link_name, minor as u64);
    let mut dev_contents = copy_bytes(dev_link_name.as_slice());
    push_str(&mut dev_contents, "\n");
    let uevent_contents = render_uevent_file(
        class,
        name,
        devpath.as_slice(),
        cls.as_bytes(),
        major,
        minor,
        node_paths,
        uevent_fields,
    );
    let mut class_target: Vec<u8> = Vec::new();
    push_str(&mut class_target, "class/");
    push_str(&mut class_target, cls);
    let subsystem_link = relative_from_sys_devices(device_path.as_slice(), class_target.as_slice());
    let mut class_link_target: Vec<u8> = Vec::new();
    push_str(&mut class_link_target, "../../devices/");
    push_bytes(&mut class_link_target, device_path.as_slice());
    let dev_link_target = copy_bytes(class_link_target.as_slice());
    let dev_dir = match class {
        DeviceClass::Block => "block",
        _ => "char",
    };
    let uevent_message = render_uevent_message(
        "add".as_bytes(),
        class,
        name,
        devpath.as_slice(),
        cls.as_bytes(),
        major,
        minor,
        node_paths,
        seqnum,
        uevent_fields,
    );
    SysfsResourcePlan {
        class_name: cls,
        device_path,
        devpath,
        dev_contents,
        uevent_contents,
        subsystem_link,
        class_link_target,
        dev_dir,
        dev_link_name,
        dev_link_target,
        uevent_message,
    }
}

/// The two links that registering a device on a bus creates: the device directory's
/// `subsystem` link to `/sys/bus/<bus_name>`, and the target of the device's link
/// under `/sys/bus/<bus_name>/devices`.
pub fn bus_device_links(bus_name: &[u8], device_path: &[u8]) -> (r: (Vec<u8>, Vec<u8>))
    ensures
        r.0@ == spec_relative_from_sys_devices(device_path@, "bus/".spec_bytes() + bus_name@),
        r.1@ == "../../../devices/".spec_bytes() + device_path@,
{
    let mut bus_target: Vec<u8> = Vec::new();
    push_str(&mut bus_target, "bus/");
    push_bytes(&mut bus_target, bus_name);
    let subsystem = relative_from_sys_devices(device_path, bus_target.as_slice());
    let mut device_link: Vec<u8> = Vec::new();
    push_str(&mut device_link, "../../../devices/");
    push_bytes(&mut device_link, device_path);
    (subsystem, device_link)
}

/// Where registering a device on a bus puts things, as paths under `/sys`: the bus
/// directory with its `devices` and `drivers` subdirectories, the device's directory, the
/// device directory's `subsystem` link target, and the name and target of the device's
/// link in the bus's `devices` directory.
pub struct SysfsBusDevicePlan {
    pub bus_dir: Vec<u8>,
    pub bus_devices_dir: Vec<u8>,
    pub bus_drivers_dir: Vec<u8>,
    pub device_dir: Vec<u8>,
    pub subsystem_link: Vec<u8>,
    pub bus_link_name: Vec<u8>,
    pub bus_link_target: Vec<u8>,
}

/// The layout of registering device `device_name` at `device_path` (under
/// `/sys/devices`) on bus `bus_name`.
pub fn sysfs_bus_device_plan(bus_name: &[u8], device_name: &[u8], device_path: &[u8]) -> (r: SysfsBusDevicePlan)
    ensures
        r.bus_dir@ == "bus/".spec_bytes() + bus_name@,
        r.bus_devices_dir@ == "bus/".spec_bytes() + bus_name@ + "/devices".spec_bytes(),
        r.bus_drivers_dir@ == "bus/".spec_bytes() + bus_name@ + "/drivers".spec_bytes(),
        r.device_dir@ == "devices/".spec_bytes() + device_path@,
        r.subsystem_link@ == spec_relative_from_sys_devices(device_path@, "bus/".spec_bytes() + bus_name@),
        r.bus_link_name@ == device_name@,
        r.bus_link_target@ == "../../../devices/".spec_bytes() + device_path@,
{
    let mut bus_dir: Vec<u8> = Vec::new();
    push_str(&mut bus_dir, "bus/");
    push_bytes(&mut bus_dir, bus_name);
    let mut bus_devices_dir = copy_bytes(bus_dir.as_slice());
    push_str(&mut bus_devices_dir, "/devices");
    let mut bus_drivers_dir = copy_bytes(bus_dir.as_slice());
    push_str(&mut bus_drivers_dir, "/drivers");
    let mut device_dir: Vec<u8> = Vec::new();
    push_str(&mut device_dir, "devices/");
    push_bytes(&mut device_dir, device_path);
    let (subsystem_link, bus_link_target) = bus_device_links(bus_name, device_path);
    SysfsBusDevicePlan {
        bus_dir,
        bus_devices_dir,
        bus_drivers_dir,
        device_dir,
        subsystem_link,
        bus_link_name: copy_bytes(device_name),
        bus_link_target,
    }
}

/// `s` without the `/` bytes it ends with.
pub open spec fn trim_trailing_slashes(s: Seq<u8>) -> Seq<u8>
    decreases s.len(),
{
    if s.len() > 0 && s.last() == 47 {
        trim_trailing_slashes(s.drop_last())
    } else {
        s
    }
}

/// `s` without its leading and trailing `/` bytes.
pub open spec fn trim_slashes(s: Seq<u8>) -> Seq<u8> {
    trim_trailing_slashes(trim_leading_slashes(s))
}

/// Whether `i` is the position of the last `/` of `s`.
pub open spec fn is_last_slash(s: Seq<u8>, i: int) -> bool {
    0 <= i < s.len() && s[i] == 47 && forall|j: int| i < j < s.len() ==> s[j] != 47
}

/// The parent directory (under `/sys`) and the name of a sysfs entry at `path`:
/// `InvalidInput` when `path` is only slashes.
pub open spec fn spec_split_entry_path(path: Seq<u8>) -> Result<(Seq<u8>, Seq<u8>), FsError> {
    let t = trim_slashes(path);
    if t.len() == 0 {
        Err(FsError::InvalidInput)
    } else if exists|i: int| is_last_slash(t, i) {
        let i = choose|i: int| is_last_slash(t, i);
        Ok((t.take(i), t.skip(i + 1)))
    } else {
        Ok((Seq::empty(), t))
    }
}

/// Splits the path of a sysfs entry into its parent directory and its name.
pub fn split_entry_path(path: &[u8]) -> (r: Result<(Vec<u8>, Vec<u8>), FsError>)
    ensures
        match (r, spec_split_entry_path(path@)) {
            (Ok((p, n)), Ok((sp, sn))) => p@ == sp && n@ == sn,
            (Err(e), Err(se)) => e == se,
            _ => false,
        },
{
    let start = leading_slashes(path);
    let mut end: usize = path.len();
    let ghost lead = path@.skip(start as int);
    assert(path@.subrange(start as int, end as int) =~= lead);
    while end > start && path[end - 1] == 47
        invariant
            start <= end <= path@.len(),
            lead == path@.skip(start as int),
            trim_trailing_slashes(lead) == trim_trailing_slashes(path@.subrange(start as int, end as int)),
        decreases end - start,
    {
        assert(path@.subrange(start as int, end as int).drop_last() =~= path@.subrange(
            start as int,
            end - 1,
        ));
        end = end - 1;
    }
    let ghost t = path@.subrange(start as int, end as int);
    assert(trim_trailing_slashes(t) == t);
    assert(t == trim_slashes(path@));
    if end == start {
        return Err(FsError::InvalidInput);
    }
    let mut k: usize = end;
    while k > start && path[k - 1] != 47
        invariant
            start <= k <= end,
            end <= path@.len(),
            forall|j: int| k <= j < end ==> path@[j] != 47,
        decreases k - start,
    {
        k = k - 1;
    }
    let parent = if k > start {
        copy_range(path, start, k - 1)
    } else {
        Vec::new()
    };
    let name = copy_range(path, k, end);
    proof {
        if k > start {
            let i = k - 1 - start;
            assert(is_last_slash(t, i));
            let c = choose|c: int| is_last_slash(t, c);
            if c < i {
                assert(t[i] != 47);
            } else if c > i {
                assert(t[c] != 47);
            }
            assert(parent@ =~= t.take(i));
            assert(name@ =~= t.skip(i + 1));
        } else {
            assert(!exists|i: int| is_last_slash(t, i));
            assert(name@ =~= t);
        }
    }
    Ok((parent, name))
}


/// Whether a filesystem type needs no device.
pub open spec fn is_nodev(fstype: Seq<u8>) -> bool {
    fstype == "devtmpfs".spec_bytes() || fstype == "proc".spec_bytes() || fstype
        == "rootfs".spec_bytes() || fstype == "sysfs".spec_bytes() || fstype == "tmpfs".spec_bytes()
}

/// The lines of `/proc/filesystems`: `nodev` for the types that need no device, a tab,
/// the type.
pub open spec fn filesystems_text(fstypes: Seq<Seq<u8>>) -> Seq<u8>
    decreases fstypes.len(),
{
    if fstypes.len() == 0 {
        Seq::empty()
    } else {
        let f = fstypes.last();
        filesystems_text(fstypes.drop_last()) + (if is_nodev(f) {
            "nodev\t".spec_bytes()
        } else {
            "\t".spec_bytes()
        }) + f + "\n".spec_bytes()
    }
}

/// The text of `/proc/filesystems`.
pub fn render_filesystems(fstypes: &Vec<Vec<u8>>) -> (r: Vec<u8>)
    ensures
        r@ == filesystems_text(views(fstypes@)),
{
    let mut out: Vec<u8> = Vec::new();
    let mut k: usize = 0;
    while k < fstypes.len()
        invariant
            k <= fstypes@.len(),
            out@ == filesystems_text(views(fstypes@).take(k as int)),
        decreases fstypes@.len() - k,
    {
        let f = fstypes[k].as_slice();
        let nodev = bytes_equal(f, "devtmpfs".as_bytes()) || bytes_equal(f, "proc".as_bytes())
            || bytes_equal(f, "rootfs".as_bytes()) || bytes_equal(f, "sysfs".as_bytes())
            || bytes_equal(f, "tmpfs".as_bytes());
        if nodev {
            push_str(&mut out, "nodev\t");
        } else {
            push_str(&mut out, "\t");
        }
        push_bytes(&mut out, f);
        push_str(&mut out, "\n");
        proof {
            let t = views(fstypes@).take(k + 1);
            assert(t.drop_last() =~= views(fstypes@).take(k as int));
            assert(t.last() == fstypes@[k as int]@);
        }
        k = k + 1;
    }
    assert(views(fstypes@).take(fstypes@.len() as int) =~= views(fstypes@));
    out
}

/// The text of `/proc/uptime` at `nanos` since boot: seconds, two digits of hundredths,
/// and an idle time of `0.00`.
pub open spec fn uptime_text(nanos: u64) -> Seq<u8> {
    decimal((nanos / 1_000_000_000) as nat) + ".".spec_bytes() + zero_pad(
        decimal(((nanos % 1_000_000_000) / 10_000_000) as nat),
        2,
    ) + " 0.00\n".spec_bytes()
}

/// The text of `/proc/uptime` at `nanos` since boot.
pub fn render_uptime(nanos: u64) -> (r: Vec<u8>)
    ensures
        r@ == uptime_text(nanos),
{
    let secs = nanos / 1_000_000_000;
    let centis = (nanos % 1_000_000_000) / 10_000_000;
    let mut out: Vec<u8> = Vec::new();
    push_decimal(&mut out, secs);
    push_str(&mut out, ".");
    push_padded(&mut out, centis, 10, false, 2);
    push_str(&mut out, " 0.00\n");
    out
}

/// The text of `/sys/kernel/uevent_seqnum`: the last sequence number given out.
pub fn render_uevent_seqnum(seqnum: u64) -> (r: Vec<u8>)
    ensures
        r@ == decimal(seqnum as nat) + "\n".spec_bytes(),
{
    let mut out: Vec<u8> = Vec::new();
    push_decimal(&mut out, seqnum);
    push_str(&mut out, "\n");
    out
}

/// A `uname` field as a one-line file: its bytes up to the NUL, then a newline.
pub fn field_line(field: &[u8; 65]) -> (r: Vec<u8>)
    ensures
        r@ == before_nul(field@) + "\n".spec_bytes(),
{
    let end = nul_position(field);
    let mut out = copy_range(field, 0, end);
    push_str(&mut out, "\n");
    out
}

/// The fixed files of `/proc`.
pub struct ProcfsFiles {
    /// `/proc/cmdline`, when the kernel has a command line.
    pub cmdline: Option<Vec<u8>>,
    /// `/proc/filesystems`.
    pub filesystems: Vec<u8>,
    /// `/proc/sys/kernel/ostype`.
    pub ostype: Vec<u8>,
    /// `/proc/sys/kernel/osrelease`.
    pub osrelease: Vec<u8>,
    /// `/proc/sys/kernel/version`.
    pub version: Vec<u8>,
    /// `/proc/sys/kernel/hostname`.
    pub hostname: Vec<u8>,
    /// `/proc/sys/kernel/domainname`.
    pub domainname: Vec<u8>,
}

/// The contents of the fixed `/proc` files, for the kernel command line, the
/// filesystem types and the `uname` answer `uts`.
pub fn procfs_files(command_line: Option<&[u8]>, fstypes: &Vec<Vec<u8>>, uts: &LinuxUtsName) -> (r: ProcfsFiles)
    ensures
        match command_line {
            Some(c) => r.cmdline matches Some(v) && v@ == c@,
            None => r.cmdline is None,
        },
        r.filesystems@ == filesystems_text(views(fstypes@)),
        r.ostype@ == before_nul(uts.sysname@) + "\n".spec_bytes(),
        r.osrelease@ == before_nul(uts.release@) + "\n".spec_bytes(),
        r.version@ == before_nul(uts.version@) + "\n".spec_bytes(),
        r.hostname@ == before_nul(uts.nodename@) + "\n".spec_bytes(),
        r.domainname@ == before_nul(uts.domainname@) + "\n".spec_bytes(),
{
    let cmdline = match command_line {
        Some(c) => Some(copy_bytes(c)),
        None => None,
    };
    ProcfsFiles {
        cmdline,
        filesystems: render_filesystems(fstypes),
        ostype: field_line(&uts.sysname),
        osrelease: field_line(&uts.release),
        version: field_line(&uts.version),
        hostname: field_line(&uts.nodename),
        domainname: field_line(&uts.domainname),
    }
}

/// The identity of a PCI function, as its sysfs attributes show it.
#[derive(Debug, Clone, Copy, PartialEq, Eq, Structural)]
pub struct PciDeviceIds {
    pub vendor_id: u16,
    pub device_id: u16,
    pub subsystem_vendor_id: Option<u16>,
    pub subsystem_device_id: Option<u16>,
    /// Class, subclass and programming interface, packed as the `class` file shows them.
    pub class_code: u32,
    pub class: u8,
    pub subclass: u8,
    pub prog_if: u8,
    pub revision: u8,
    pub irq_line: Option<u8>,
    pub is_bridge: bool,
    pub secondary_bus: Option<u8>,
    pub subordinate_bus: Option<u8>,
}

/// A read-only text attribute of a sysfs device.
pub struct TextAttribute {
    pub name: &'static str,
    pub contents: Vec<u8>,
}

/// `0x`, `n` in lower-case hex padded to `width`, newline.
pub open spec fn hex_line(n: nat, width: nat) -> Seq<u8> {
    "0x".spec_bytes() + zero_pad(digits(n, 16, false), width) + "\n".spec_bytes()
}

/// `n` in upper-case hex padded to `width`.
pub open spec fn upper_hex(n: nat, width: nat) -> Seq<u8> {
    zero_pad(digits(n, 16, true), width)
}

/// 0 for a missing ID.
pub open spec fn or_zero16(v: Option<u16>) -> nat {
    match v {
        Some(x) => x as nat,
        None => 0,
    }
}

/// 0 for a missing value.
pub open spec fn or_zero8(v: Option<u8>) -> nat {
    match v {
        Some(x) => x as nat,
        None => 0,
    }
}

/// The `modalias` of a PCI function.
pub open spec fn pci_modalias_text(d: PciDeviceIds) -> Seq<u8> {
    "pci:v".spec_bytes() + upper_hex(d.vendor_id as nat, 8) + "d".spec_bytes() + upper_hex(
        d.device_id as nat,
        8,
    ) + "sv".spec_bytes() + upper_hex(or_zero16(d.subsystem_vendor_id), 8) + "sd".spec_bytes()
        + upper_hex(or_zero16(d.subsystem_device_id), 8) + "bc".spec_bytes() + upper_hex(
        d.class as nat,
        2,
    ) + "sc".spec_bytes() + upper_hex(d.subclass as nat, 2) + "i".spec_bytes() + upper_hex(
        d.prog_if as nat,
        2,
    ) + "\n".spec_bytes()
}

/// The text attributes of a PCI function, in order; a bridge adds its secondary and
/// subordinate bus numbers where it has them.
pub open spec fn pci_attribute_texts(d: PciDeviceIds) -> Seq<(&'static str, Seq<u8>)> {
    let base = seq![
        ("class", hex_line(d.class_code as nat, 6)),
        ("vendor", hex_line(d.vendor_id as nat, 4)),
        ("device", hex_line(d.device_id as nat, 4)),
        ("revision", hex_line(d.revision as nat, 2)),
        ("subsystem_vendor", hex_line(or_zero16(d.subsystem_vendor_id), 4)),
        ("subsystem_device", hex_line(or_zero16(d.subsystem_device_id), 4)),
        ("irq", decimal(or_zero8(d.irq_line)) + "\n".spec_bytes()),
        ("modalias", pci_modalias_text(d)),
    ];
    let with_secondary = match d.secondary_bus {
        Some(b) if d.is_bridge => base.push(
            ("secondary_bus_number", decimal(b as nat) + "\n".spec_bytes()),
        ),
        _ => base,
    };
    match d.subordinate_bus {
        Some(b) if d.is_bridge => with_secondary.push(
            ("subordinate_bus_number", decimal(b as nat) + "\n".spec_bytes()),
        ),
        _ => with_secondary,
    }
}

/// The attributes as names and contents.
pub open spec fn attribute_views(a: Seq<TextAttribute>) -> Seq<(&'static str, Seq<u8>)> {
    a.map_values(|t: TextAttribute| (t.name, t.contents@))
}

fn hex_line_bytes(n: u64, width: usize) -> (r: Vec<u8>)
    ensures
        r@ == hex_line(n as nat, width as nat),
{
    let mut out: Vec<u8> = Vec::new();
    push_str(&mut out, "0x");
    push_padded(&mut out, n, 16, false, width);
    push_str(&mut out, "\n");
    out
}

fn decimal_line(n: u64) -> (r: Vec<u8>)
    ensures
        r@ == decimal(n as nat) + "\n".spec_bytes(),
{
    let mut out: Vec<u8> = Vec::new();
    push_decimal(&mut out, n);
    push_str(&mut out, "\n");
    out
}

fn id_or_zero(v: Option<u16>) -> (r: u64)
    ensures
        r == or_zero16(v),
{
    match v {
        Some(x) => x as u64,
        None => 0,
    }
}

/// The `modalias` of a PCI function.
pub fn pci_modalias(d: &PciDeviceIds) -> (r: Vec<u8>)
    ensures
        r@ == pci_modalias_text(*d),
{
    let mut out: Vec<u8> = Vec::new();
    push_str(&mut out, "pci:v");
    push_padded(&mut out, d.vendor_id as u64, 16, true, 8);
    push_str(&mut out, "d");
    push_padded(&mut out, d.device_id as u64, 16, true, 8);
    push_str(&mut out, "sv");
    push_padded(&mut out, id_or_zero(d.subsystem_vendor_id), 16, true, 8);
    push_str(&mut out, "sd");
    push_padded(&mut out, id_or_zero(d.subsystem_device_id), 16, true, 8);
    push_str(&mut out, "bc");
    push_padded(&mut out, d.class as u64, 16, true, 2);
    push_str(&mut out, "sc");
    push_padded(&mut out, d.subclass as u64, 16, true, 2);
    push_str(&mut out, "i");
    push_padded(&mut out, d.prog_if as u64, 16, true, 2);
    push_str(&mut out, "\n");
    out
}

/// The text attributes of a PCI function's sysfs directory; see `pci_attribute_texts`.
pub fn pci_text_attributes(d: &PciDeviceIds) -> (r: Vec<TextAttribute>)
    ensures
        attribute_views(r@) == pci_attribute_texts(*d),
{
    let mut out: Vec<TextAttribute> = Vec::new();
    out.push(TextAttribute { name: "class", contents: hex_line_bytes(d.class_code as u64, 6) });
    out.push(TextAttribute { name: "vendor", contents: hex_line_bytes(d.vendor_id as u64, 4) });
    out.push(TextAttribute { name: "device", contents: hex_line_bytes(d.device_id as u64, 4) });
    out.push(TextAttribute { name: "revision", contents: hex_line_bytes(d.revision as u64, 2) });
    out.push(
        TextAttribute {
            name: "subsystem_vendor",
            contents: hex_line_bytes(id_or_zero(d.subsystem_vendor_id), 4),
        },
    );
    out.push(
        TextAttribute {
            name: "subsystem_device",
            contents: hex_line_bytes(id_or_zero(d.subsystem_device_id), 4),
        },
    );
    let irq: u64 = match d.irq_line {
        Some(x) => x as u64,
        None => 0,
    };
    out.push(TextAttribute { name: "irq", contents: decimal_line(irq) });
    out.push(TextAttribute { name: "modalias", contents: pci_modalias(d) });
    let ghost base = attribute_views(out@);
    if d.is_bridge {
        match d.secondary_bus {
            Some(b) => out.push(
                TextAttribute { name: "secondary_bus_number", contents: decimal_line(b as u64) },
            ),
            None => {},
        }
        match d.subordinate_bus {
            Some(b) => out.push(
                TextAttribute { name: "subordinate_bus_number", contents: decimal_line(b as u64) },
            ),
            None => {},
        }
    }
    assert(attribute_views(out@) =~= pci_attribute_texts(*d));
    out
}

} // verus!

//! macOS: the audio hardware layer tells which devices run, and since macOS 14
//! which processes capture. Playing and watching are on one device, the loopback
//! device itself.
use vstd::prelude::*;

use crate::micuse::MicUse;
use crate::text;
use crate::text::{same_text, text_contains};

verus! {

/// An audio device by its object id.
pub type MonitorTarget = u32;

/// The object that stands for the whole system.
pub const SYSTEM_OBJECT: u32 = 1;

/// The global scope, `glob`.
pub const SCOPE_GLOBAL: u32 = 0x676c_6f62;

/// The main element.
pub const ELEMENT_MAIN: u32 = 0;

/// The list of devices, `dev#`.
pub const PROP_DEVICES: u32 = 0x6465_7623;

/// The name of an object, `lnam`.
pub const PROP_NAME: u32 = 0x6c6e_616d;

/// The list of processes, `prs#`.
pub const PROP_PROCESS_LIST: u32 = 0x7072_7323;

/// The id of a process, `ppid`.
pub const PROP_PROC_PID: u32 = 0x7070_6964;

/// The devices that a process uses, `pdv#`.
pub const PROP_PROC_DEVICES: u32 = 0x7064_7623;

/// Whether a process captures, `piri`.
pub const PROP_PROC_IS_RUNNING_INPUT: u32 = 0x7069_7269;

/// Whether a device runs for any process, `gone`.
pub const PROP_DEV_RUNNING_SOMEWHERE: u32 = 0x676f_6e65;

/// The number that four characters make, the first one highest.
pub open spec fn four_char_code(b: Seq<u8>) -> int {
    16777216 * b[0] + 65536 * b[1] + 256 * b[2] + b[3]
}

/// The number that four characters make.
pub fn fourcc(b: &[u8; 4]) -> (r: u32)
    ensures
        r == four_char_code(b@),
{
    16777216 * b[0] as u32 + 65536 * b[1] as u32 + 256 * b[2] as u32 + b[3] as u32
}

/// Where a property of an object is found.
#[derive(Debug, Clone, Copy, PartialEq, Eq, Structural)]
pub struct PropertyAddress {
    pub selector: u32,
    pub scope: u32,
    pub element: u32,
}

/// The global property with a selector.
pub fn addr(selector: u32) -> (r: PropertyAddress)
    ensures
        r == (PropertyAddress { selector, scope: SCOPE_GLOBAL, element: ELEMENT_MAIN }),
{
    PropertyAddress { selector, scope: SCOPE_GLOBAL, element: ELEMENT_MAIN }
}

/// A device as the system lists it; its name may be unreadable.
pub struct Device {
    pub id: u32,
    pub name: Option<String>,
}

pub struct DeviceView {
    pub id: u32,
    pub name: Option<Seq<char>>,
}

impl View for Device {
    type V = DeviceView;

    open spec fn view(&self) -> DeviceView {
        DeviceView { id: self.id, name: text::opt_view(self.name) }
    }
}

/// The device has exactly this name.
pub open spec fn named(d: DeviceView, name: Seq<char>) -> bool {
    d.name == Some(name)
}

/// One of the two names is a piece of the other.
pub open spec fn resembles(d: DeviceView, name: Seq<char>) -> bool {
    match d.name {
        Some(n) => text::contains(n, name) || text::contains(name, n),
        None => false,
    }
}

/// The first device among the first `upto` that passes a test.
pub open spec fn first_that(
    devices: Seq<Device>,
    test: spec_fn(DeviceView) -> bool,
    upto: int,
    r: Option<u32>,
) -> bool {
    match r {
        Some(id) => exists|i: int|
            0 <= i < upto && test((#[trigger] devices[i])@) && devices[i]@.id == id && forall|j: int|
                0 <= j < i ==> !test((#[trigger] devices[j])@),
        None => forall|j: int| 0 <= j < upto ==> !test((#[trigger] devices[j])@),
    }
}

/// Some device has exactly this name.
pub open spec fn any_named(devices: Seq<Device>, name: Seq<char>) -> bool {
    exists|i: int| 0 <= i < devices.len() && named((#[trigger] devices[i])@, name)
}

/// The device to watch for an output device: the first of exactly that name, or
/// else the first whose name resembles it. There is none where the devices
/// cannot be listed.
pub fn find_monitor_target(output_device_name: &str, devices: &Option<Vec<Device>>) -> (r: Option<
    MonitorTarget,
>)
    ensures
        match *devices {
            Some(list) => if any_named(list@, output_device_name@) {
                first_that(
                    list@,
                    |d: DeviceView| named(d, output_device_name@),
                    list@.len() as int,
                    r,
                )
            } else {
                first_that(
                    list@,
                    |d: DeviceView| resembles(d, output_device_name@),
                    list@.len() as int,
                    r,
                )
            },
            None => r is None,
        },
{
    match devices {
        Some(list) => {
            let ghost wanted = output_device_name@;
            let ghost exact = |d: DeviceView| named(d, wanted);
            let ghost alike = |d: DeviceView| resembles(d, wanted);
            let mut fuzzy: Option<u32> = None;
            let count: usize = list.len();
            let mut i: usize = 0;
            while i < count
                invariant
                    *devices == Some(*list),
                    count == list@.len(),
                    i <= count,
                    wanted == output_device_name@,
                    exact == (|d: DeviceView| named(d, wanted)),
                    alike == (|d: DeviceView| resembles(d, wanted)),
                    forall|j: int| 0 <= j < i ==> !named((#[trigger] list@[j])@, wanted),
                    first_that(list@, alike, i as int, fuzzy),
                decreases count - i,
            {
                let id: u32 = list[i].id;
                match &list[i].name {
                    Some(n) => {
                        if same_text(n.as_str(), output_device_name) {
                            assert(named(list@[i as int]@, wanted));
                            assert(exact(list@[i as int]@));
                            return Some(id);
                        }
                        let near = text_contains(n.as_str(), output_device_name) || text_contains(
                            output_device_name,
                            n.as_str(),
                        );
                        assert(near == alike(list@[i as int]@));
                        if fuzzy.is_none() && near {
                            fuzzy = Some(id);
                        }
                    },
                    None => {
                        assert(!alike(list@[i as int]@));
                    },
                }
                i = i + 1;
            }
            fuzzy
        },
        None => None,
    }
}

/// Whether any process runs the device, from the device's property: it is one if
/// so. While this app plays to the device, it always is.
pub fn device_running_somewhere(running: Option<u32>) -> (r: bool)
    ensures
        r == (running == Some(1u32)),
{
    match running {
        Some(v) => v == 1,
        None => false,
    }
}

/// A process as the system lists it; what cannot be read is missing.
pub struct Process {
    pub pid: Option<u32>,
    pub running_input: Option<u32>,
    pub devices: Option<Vec<u32>>,
}

/// The process visibly uses devices, and the target is not among them.
pub open spec fn elsewhere(p: Process, target: u32) -> bool {
    match p.devices {
        Some(ds) => ds@.len() > 0 && !ds@.contains(target),
        None => false,
    }
}

/// The process is another one and captures, perhaps from the target.
pub open spec fn captures(p: Process, me: u32, target: u32) -> bool {
    &&& p.pid != Some(me)
    &&& p.running_input == Some(1u32)
    &&& !elsewhere(p, target)
}

pub open spec fn any_captures(list: Seq<Process>, me: u32, target: u32) -> bool {
    exists|i: int| 0 <= i < list.len() && captures(#[trigger] list[i], me, target)
}

/// Whether another process captures. Which devices a process uses is mostly
/// hidden, so a process counts unless it visibly captures elsewhere. Without a
/// list of processes the system cannot tell.
pub fn other_process_capturing(target: &MonitorTarget, processes: &Option<Vec<Process>>, me: u32)
    -> (r: MicUse)
    ensures
        match *processes {
            Some(list) => r == (if any_captures(list@, me, *target) {
                MicUse::InUse
            } else {
                MicUse::Idle
            }),
            None => r == MicUse::Unsupported,
        },
{
    match processes {
        Some(list) => {
            let count: usize = list.len();
            let mut i: usize = 0;
            while i < count
                invariant
                    *processes == Some(*list),
                    count == list@.len(),
                    i <= count,
                    forall|j: int| 0 <= j < i ==> !captures(#[trigger] list@[j], me, *target),
                decreases count - i,
            {
                let own = match list[i].pid {
                    Some(pid) => pid == me,
                    None => false,
                };
                let running = match list[i].running_input {
                    Some(v) => v == 1,
                    None => false,
                };
                if !own && running && !is_elsewhere(&list[i], *target) {
                    assert(captures(list@[i as int], me, *target));
                    return MicUse::InUse;
                }
                i = i + 1;
            }
            MicUse::Idle
        },
        None => MicUse::Unsupported,
    }
}

fn is_elsewhere(p: &Process, target: u32) -> (r: bool)
    ensures
        r == elsewhere(*p, target),
{
    match &p.devices {
        Some(ds) => {
            let count: usize = ds.len();
            let mut i: usize = 0;
            while i < count
                invariant
                    p.devices == Some(*ds),
                    count == ds@.len(),
                    i <= count,
                    forall|j: int| 0 <= j < i ==> ds@[j] != target,
                decreases count - i,
            {
                if ds[i] == target {
                    return false;
                }
                i = i + 1;
            }
            count > 0
        },
        None => false,
    }
}

/// Another process that captures counts unless it visibly captures elsewhere: one
/// whose devices are hidden counts, one that uses the target among others counts,
/// and this app itself never does.
pub proof fn law_captures_of_others_count(p: Process, me: u32, target: u32)
    ensures
        p.pid == Some(me) ==> !captures(p, me, target),
        p.running_input != Some(1u32) ==> !captures(p, me, target),
        p.pid != Some(me) && p.running_input == Some(1u32) && p.devices is None ==> captures(
            p,
            me,
            target,
        ),
        p.pid != Some(me) && p.running_input == Some(1u32) ==> match p.devices {
            Some(ds) => captures(p, me, target) <==> ds@.len() == 0 || exists|i: int|
                0 <= i < ds@.len() && #[trigger] ds@[i] == target,
            None => captures(p, me, target),
        },
{
}

/// The microphone is in use exactly if some process counts.
pub proof fn law_one_capture_is_enough(a: Seq<Process>, p: Process, b: Seq<Process>, me: u32, target: u32)
    ensures
        captures(p, me, target) ==> any_captures(a + seq![p] + b, me, target),
        !any_captures(Seq::empty(), me, target),
        any_captures(a + b, me, target) <==> any_captures(a, me, target) || any_captures(
            b,
            me,
            target,
        ),
{
    let all = a + seq![p] + b;
    assert(all[a.len() as int] == p);
    let ab = a + b;
    if any_captures(ab, me, target) {
        let i = choose|i: int| 0 <= i < ab.len() && captures(#[trigger] ab[i], me, target);
        if i < a.len() {
            assert(captures(a[i], me, target));
        } else {
            assert(captures(b[i - a.len()], me, target));
        }
    }
    if any_captures(a, me, target) {
        let i = choose|i: int| 0 <= i < a.len() && captures(#[trigger] a[i], me, target);
        assert(captures(ab[i], me, target));
    }
    if any_captures(b, me, target) {
        let i = choose|i: int| 0 <= i < b.len() && captures(#[trigger] b[i], me, target);
        assert(captures(ab[a.len() + i], me, target));
    }
}

/// A device is the wanted one by its very name; it resembles it where one of the
/// two names is a piece of the other. A device without a name is neither.
pub proof fn law_devices_are_told_by_name(
    id: u32,
    front: Seq<char>,
    name: Seq<char>,
    behind: Seq<char>,
    other: Seq<char>,
)
    ensures
        named(DeviceView { id, name: Some(other) }, name) <==> other == name,
        !named(DeviceView { id, name: None }, name),
        !resembles(DeviceView { id, name: None }, name),
        resembles(DeviceView { id, name: Some(front + name + behind) }, name),
        resembles(DeviceView { id, name: Some(name) }, front + name + behind),
        resembles(DeviceView { id, name: Some(other) }, name) ==> text::contains(other, name)
            || text::contains(name, other),
{
    text::law_text_holds_its_pieces(front, name, behind);
}

/// The first device that passes is found whenever there is one.
pub proof fn law_first_device_is_found(
    devices: Seq<Device>,
    test: spec_fn(DeviceView) -> bool,
    i: int,
    r: Option<u32>,
)
    requires
        first_that(devices, test, devices.len() as int, r),
        0 <= i < devices.len(),
        test(devices[i]@),
        forall|j: int| 0 <= j < i ==> !test((#[trigger] devices[j])@),
    ensures
        r == Some(devices[i].id),
{
    match r {
        Some(id) => {
            let k = choose|k: int|
                0 <= k < devices.len() && test((#[trigger] devices[k])@) && devices[k]@.id == id
                    && forall|j: int| 0 <= j < k ==> !test((#[trigger] devices[j])@);
            if k < i {
                assert(!test(devices[k]@));
            } else if i < k {
                assert(!test(devices[i]@));
            }
        },
        None => {
            assert(!test(devices[i]@));
        },
    }
}

/// Four characters make a number in which the first counts most.
pub proof fn law_first_character_counts_most(b: Seq<u8>)
    requires
        b.len() == 4,
    ensures
        four_char_code(b) == ((b[0] * 256 + b[1]) * 256 + b[2]) * 256 + b[3],
{
}

/// A device of the very name is there exactly if the list holds one.
pub proof fn law_exact_name_is_noticed(devices: Seq<Device>, name: Seq<char>, i: int)
    requires
        0 <= i < devices.len(),
    ensures
        devices[i]@.id == devices[i].id,
        devices[i]@.name == text::opt_view(devices[i].name),
        devices[i]@.name == Some(name) ==> any_named(devices, name),
        any_named(devices, name) ==> exists|k: int|
            0 <= k < devices.len() && (#[trigger] devices[k])@.name == Some(name),
{
}

} // verus!

//! The decisions of the macOS backend: which capture devices are virtual,
//! how their codes and capabilities read, and their availability.
use vstd::prelude::*;

use super::{CameraAvailability, CameraPosition};
use crate::text::{
    chars_of, contains_chars, contains_seq, hex_u32, lowercase, push_hex_u32,
    string_from_chars, to_lowercase, trim, trimmed,
};

verus! {

/// The camera backend of macOS.
pub struct MacOSBackend;

impl MacOSBackend {
    pub fn new() -> Self {
        MacOSBackend
    }

    /// Why controls cannot be changed on macOS.
    pub fn set_control_error(&self) -> (e: String)
        ensures
            e@ == "Camera controls are not available on macOS yet"@,
    {
        "Camera controls are not available on macOS yet".to_owned()
    }
}

/// The transport type of virtual capture devices: the code `virt`.
pub const VIRTUAL_TRANSPORT_TYPE: i32 = 0x7669_7274;

/// `value` trimmed, or none when nothing is left.
pub fn non_empty(value: &str) -> (r: Option<String>)
    ensures
        trimmed(value@).len() == 0 ==> r is None,
        trimmed(value@).len() > 0 ==> (r matches Some(s) && s@ == trimmed(value@)),
{
    let t = trim(value);
    if t.as_str().is_empty() {
        None
    } else {
        Some(t)
    }
}

/// Byte `k` (0 is the most significant) of `value` in big-endian order.
pub open spec fn be_byte(value: u32, k: int) -> u8 {
    if k == 0 {
        (value / 0x100_0000) as u8
    } else if k == 1 {
        ((value / 0x1_0000) % 0x100) as u8
    } else if k == 2 {
        ((value / 0x100) % 0x100) as u8
    } else {
        (value % 0x100) as u8
    }
}

/// Whether `b` is a visible ASCII character or a space.
pub open spec fn is_printable_ascii(b: u8) -> bool {
    0x20 <= b && b <= 0x7e
}

/// How a four character code reads: its four characters when all of them
/// are printable ASCII, else `0x` and eight hexadecimal digits.
pub open spec fn fourcc_text(value: u32) -> Seq<char> {
    if forall|k: int| 0 <= k < 4 ==> is_printable_ascii(#[trigger] be_byte(value, k)) {
        Seq::new(4, |k: int| be_byte(value, k) as char)
    } else {
        hex_u32(value)
    }
}

/// How the four character code `value` reads.
pub fn fourcc_string(value: u32) -> (r: String)
    ensures
        r@ == fourcc_text(value),
{
    let b0 = (value / 0x100_0000) as u8;
    let b1 = ((value / 0x1_0000) % 0x100) as u8;
    let b2 = ((value / 0x100) % 0x100) as u8;
    let b3 = (value % 0x100) as u8;
    let printable = 0x20 <= b0 && b0 <= 0x7e && 0x20 <= b1 && b1 <= 0x7e && 0x20 <= b2 && b2
        <= 0x7e && 0x20 <= b3 && b3 <= 0x7e;
    let mut out: Vec<char> = Vec::new();
    if printable {
        out.push(b0 as char);
        out.push(b1 as char);
        out.push(b2 as char);
        out.push(b3 as char);
        assert(out@ =~= Seq::new(4, |k: int| be_byte(value, k) as char));
    } else {
        push_hex_u32(&mut out, value);
        assert(!is_printable_ascii(be_byte(value, 0)) || !is_printable_ascii(be_byte(value, 1))
            || !is_printable_ascii(be_byte(value, 2)) || !is_printable_ascii(be_byte(value, 3)));
        assert(out@ =~= hex_u32(value));
    }
    string_from_chars(&out)
}

/// Whether `text` names a virtual camera or webcam, ignoring case.
pub open spec fn mentions_virtual_camera(text: Seq<char>) -> bool {
    contains_seq(lowercase(text), "virtual camera"@) || contains_seq(lowercase(text), "virtual webcam"@)
}

fn mentions_virtual_camera_exec(text: &str) -> (r: bool)
    ensures
        r == mentions_virtual_camera(text@),
{
    let lower = chars_of(to_lowercase(text).as_str());
    contains_chars(&lower, &chars_of("virtual camera")) || contains_chars(
        &lower,
        &chars_of("virtual webcam"),
    )
}

/// Whether a capture device is virtual: its transport is the virtual
/// transport, or its name, manufacturer or model mentions a virtual camera
/// or webcam.
pub fn is_virtual_camera(transport_type: i32, name: &str, manufacturer: &str, model: &str) -> (r: bool)
    ensures
        r == (transport_type == VIRTUAL_TRANSPORT_TYPE || mentions_virtual_camera(name@)
            || mentions_virtual_camera(manufacturer@) || mentions_virtual_camera(model@)),
{
    if transport_type == VIRTUAL_TRANSPORT_TYPE {
        return true;
    }
    mentions_virtual_camera_exec(name) || mentions_virtual_camera_exec(manufacturer)
        || mentions_virtual_camera_exec(model)
}

/// Where a capture device faces, from its AVFoundation position (1 is the
/// back, 2 the front).
pub fn camera_position(position: isize) -> (r: CameraPosition)
    ensures
        position == 2 ==> r == CameraPosition::Front,
        position == 1 ==> r == CameraPosition::Back,
        position != 1 && position != 2 ==> r == CameraPosition::Unspecified,
{
    if position == 2 {
        CameraPosition::Front
    } else if position == 1 {
        CameraPosition::Back
    } else {
        CameraPosition::Unspecified
    }
}

/// The capability names of a capture device: video capture and streaming,
/// then those of the features it has.
pub open spec fn capability_list(torch: bool, focus: bool, exposure: bool, white_balance: bool, zoom: bool) -> Seq<Seq<char>> {
    seq!["videoCapture"@, "streaming"@] + (if torch {
        seq!["torch"@]
    } else {
        Seq::empty()
    }) + (if focus {
        seq!["focus"@]
    } else {
        Seq::empty()
    }) + (if exposure {
        seq!["exposure"@]
    } else {
        Seq::empty()
    }) + (if white_balance {
        seq!["whiteBalance"@]
    } else {
        Seq::empty()
    }) + (if zoom {
        seq!["zoom"@]
    } else {
        Seq::empty()
    })
}

/// Names the capabilities of a capture device, given whether it has a
/// torch, a focus, exposure or white-balance mode, and a zoom range.
pub fn camera_capabilities(torch: bool, focus: bool, exposure: bool, white_balance: bool, zoom: bool) -> (r: Vec<String>)
    ensures
        r@.map_values(|s: String| s@) == capability_list(torch, focus, exposure, white_balance, zoom),
{
    let mut r: Vec<String> = Vec::new();
    r.push("videoCapture".to_owned());
    r.push("streaming".to_owned());
    if torch {
        r.push("torch".to_owned());
    }
    if focus {
        r.push("focus".to_owned());
    }
    if exposure {
        r.push("exposure".to_owned());
    }
    if white_balance {
        r.push("whiteBalance".to_owned());
    }
    if zoom {
        r.push("zoom".to_owned());
    }
    assert(r@.map_values(|s: String| s@) =~= capability_list(torch, focus, exposure, white_balance, zoom));
    r
}

/// What availability reads of a listed capture device.
#[derive(Debug)]
pub struct DeviceState {
    pub id: String,
    pub connected: bool,
    pub in_use: Option<bool>,
}

/// The first listed device with identifier `id`, if any.
pub open spec fn first_with_id(devices: Seq<DeviceState>, id: Seq<char>) -> Option<int> {
    if exists|k: int| 0 <= k < devices.len() && (#[trigger] devices[k]).id@ == id {
        Some(choose|k: int| 0 <= k < devices.len() && devices[k].id@ == id && forall|j: int| 0 <= j < k ==> (#[trigger] devices[j]).id@ != id)
    } else {
        None
    }
}

fn find_device(devices: &Vec<DeviceState>, id: &String) -> (r: Option<usize>)
    ensures
        match r {
            Some(k) => k < devices.len() && devices@[k as int].id@ == id@ && forall|j: int|
                0 <= j < k ==> (#[trigger] devices@[j]).id@ != id@,
            None => forall|j: int| 0 <= j < devices.len() ==> (#[trigger] devices@[j]).id@ != id@,
        },
{
    let mut k: usize = 0;
    while k < devices.len()
        invariant
            k <= devices.len(),
            forall|j: int| 0 <= j < k ==> (#[trigger] devices@[j]).id@ != id@,
        decreases devices.len() - k,
    {
        if devices[k].id == *id {
            return Some(k);
        }
        k = k + 1;
    }
    None
}

/// The availability of each requested camera, read from the listed
/// devices: a camera is connected and in use as the first listed device
/// with its identifier says, and neither when none is listed.
pub fn availability(device_ids: &[String], devices: &Vec<DeviceState>) -> (r: Vec<CameraAvailability>)
    ensures
        r.len() == device_ids.len(),
        forall|i: int|
            0 <= i < r.len() ==> {
                &&& (#[trigger] r@[i]).id@ == device_ids@[i]@
                &&& r@[i].in_use_by@.len() == 0
                &&& (forall|j: int| 0 <= j < devices.len() ==> (#[trigger] devices@[j]).id@ != device_ids@[i]@) ==> !r@[i].connected && !r@[i].in_use
                &&& forall|k: int|
                    0 <= k < devices.len() && devices@[k].id@ == device_ids@[i]@ && (forall|j: int| 0 <= j < k ==> (#[trigger] devices@[j]).id@ != device_ids@[i]@) ==> {
                        &&& r@[i].connected == (#[trigger] devices@[k]).connected
                        &&& r@[i].in_use == (devices@[k].in_use == Some(true))
                    }
            },
{
    let mut list: Vec<CameraAvailability> = Vec::new();
    let mut i: usize = 0;
    while i < device_ids.len()
        invariant
            i <= device_ids.len(),
            list.len() == i,
            forall|x: int|
                0 <= x < i ==> {
                    &&& (#[trigger] list@[x]).id@ == device_ids@[x]@
                    &&& list@[x].in_use_by@.len() == 0
                    &&& (forall|j: int| 0 <= j < devices.len() ==> (#[trigger] devices@[j]).id@ != device_ids@[x]@) ==> !list@[x].connected && !list@[x].in_use
                    &&& forall|k: int|
                        0 <= k < devices.len() && devices@[k].id@ == device_ids@[x]@ && (forall|j: int| 0 <= j < k ==> (#[trigger] devices@[j]).id@ != device_ids@[x]@) ==> {
                            &&& list@[x].connected == (#[trigger] devices@[k]).connected
                            &&& list@[x].in_use == (devices@[k].in_use == Some(true))
                        }
                },
        decreases device_ids.len() - i,
    {
        let id = device_ids[i].clone();
        let (connected, in_use) = match find_device(devices, &id) {
            Some(k) => {
                let in_use = match devices[k].in_use {
                    Some(b) => b,
                    None => false,
                };
                proof {
                    assert forall|k2: int|
                        0 <= k2 < devices.len() && devices@[k2].id@ == id@ && (forall|j: int| 0 <= j < k2 ==> (#[trigger] devices@[j]).id@ != id@) implies k2 == k by {
                        if k2 < k {
                        } else if k2 > k {
                            assert(devices@[k as int].id@ != id@);
                        }
                    }
                }
                (devices[k].connected, in_use)
            },
            None => (false, false),
        };
        list.push(CameraAvailability { id, connected, in_use, in_use_by: Vec::new() });
        i = i + 1;
    }
    list
}

} // verus!

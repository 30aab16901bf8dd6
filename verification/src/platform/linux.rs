//! The decisions of the Linux backend: which device nodes are cameras,
//! which of them are virtual or duplicates, how their codes, flags and
//! processes read, and how a control may be changed.
use vstd::prelude::*;

use crate::text::{
    chars_less, less_chars, same_chars, is_blank, lemma_blank_collapses_to_empty,
    append_str, chars_of, char_to_uppercase, collapse_chars, collapsed, contains_chars,
    contains_seq, decimal, file_name_of, hex_u32, is_digit, lowercase, path_file_name,
    push_decimal, push_hex_u32, string_from_chars, string_from_range, strip_suffixes,
    to_lowercase, trim, trimmed, uppercase, utf8_to_string, without_suffixes,
};

verus! {

/// The camera backend of Linux.
pub struct LinuxBackend;

impl LinuxBackend {
    pub fn new() -> Self {
        LinuxBackend
    }
}

/// Device capability bits, as the V4L2 API defines them.
pub const CAP_VIDEO_CAPTURE: u32 = 0x0000_0001;
pub const CAP_VIDEO_OUTPUT: u32 = 0x0000_0002;
pub const CAP_VIDEO_CAPTURE_MPLANE: u32 = 0x0000_1000;
pub const CAP_AUDIO: u32 = 0x0002_0000;
pub const CAP_EXT_PIX_FORMAT: u32 = 0x0020_0000;
pub const CAP_META_CAPTURE: u32 = 0x0080_0000;
pub const CAP_READ_WRITE: u32 = 0x0100_0000;
pub const CAP_ASYNC_IO: u32 = 0x0200_0000;
pub const CAP_STREAMING: u32 = 0x0400_0000;

/// Control flag bits, as the V4L2 API defines them.
pub const CTRL_DISABLED: u32 = 0x0001;
pub const CTRL_GRABBED: u32 = 0x0002;
pub const CTRL_READ_ONLY: u32 = 0x0004;
pub const CTRL_UPDATE: u32 = 0x0008;
pub const CTRL_INACTIVE: u32 = 0x0010;
pub const CTRL_SLIDER: u32 = 0x0020;
pub const CTRL_WRITE_ONLY: u32 = 0x0040;
pub const CTRL_VOLATILE: u32 = 0x0080;
pub const CTRL_HAS_PAYLOAD: u32 = 0x0100;
pub const CTRL_EXECUTE_ON_WRITE: u32 = 0x0200;
pub const CTRL_MODIFY_LAYOUT: u32 = 0x0400;

/// The characters `video`.
pub open spec fn video_prefix() -> Seq<char> {
    seq!['v', 'i', 'd', 'e', 'o']
}

/// The number that the decimal digits `s` spell.
pub open spec fn digits_value(s: Seq<char>) -> nat
    decreases s.len(),
{
    if s.len() == 0 {
        0
    } else {
        digits_value(s.drop_last()) * 10 + ((s.last() as u32) - 48) as nat
    }
}

/// The number of a device node named `video` followed by decimal digits
/// that fit in 64 bits.
pub open spec fn video_index_spec(name: Seq<char>) -> Option<u64> {
    let suffix = name.skip(5);
    if name.len() > 5 && name.take(5) == video_prefix() && (forall|k: int|
        0 <= k < suffix.len() ==> crate::text::is_digit_char(#[trigger] suffix[k]))
        && digits_value(suffix) <= u64::MAX {
        Some(digits_value(suffix) as u64)
    } else {
        None
    }
}

/// The number of the video device node named `name`: `video0` is 0 and
/// `video12` is 12, while `video`, `video-decoder` and `video1-extra` are
/// no numbered nodes.
pub fn video_device_index(name: &str) -> (r: Option<u64>)
    ensures
        r == video_index_spec(name@),
{
    let cs = chars_of(name);
    if cs.len() <= 5 || cs[0] != 'v' || cs[1] != 'i' || cs[2] != 'd' || cs[3] != 'e' || cs[4] != 'o' {
        proof {
            if cs@.len() > 5 && cs@.take(5) == video_prefix() {
                assert(cs@[0] == cs@.take(5)[0]);
                assert(cs@[1] == cs@.take(5)[1]);
                assert(cs@[2] == cs@.take(5)[2]);
                assert(cs@[3] == cs@.take(5)[3]);
                assert(cs@[4] == cs@.take(5)[4]);
            }
        }
        return None;
    }
    assert(cs@.take(5) =~= video_prefix());
    let ghost suffix = cs@.skip(5);
    let mut value: u64 = 0;
    let mut overflow = false;
    let mut i: usize = 5;
    while i < cs.len()
        invariant
            5 <= i <= cs.len(),
            cs@ == name@,
            suffix == cs@.skip(5),
            forall|k: int| 0 <= k < i - 5 ==> crate::text::is_digit_char(#[trigger] suffix[k]),
            overflow ==> digits_value(suffix.take(i - 5)) > u64::MAX,
            !overflow ==> value == digits_value(suffix.take(i - 5)),
        decreases cs.len() - i,
    {
        let c = cs[i];
        if !is_digit(c) {
            assert(suffix[i - 5] == c);
            return None;
        }
        let d = (c as u32 - 48) as u64;
        assert(suffix.take(i - 4).drop_last() == suffix.take(i - 5));
        assert(suffix.take(i - 4).last() == c);
        if !overflow {
            if value > 1844674407370955161 || (value == 1844674407370955161 && d > 5) {
                overflow = true;
            } else {
                value = value * 10 + d;
            }
        }
        i = i + 1;
    }
    assert(suffix.take(i - 5) == suffix);
    if overflow {
        None
    } else {
        Some(value)
    }
}

/// Whether a device with capability bits `bits` captures video, with one
/// plane or several.
pub fn is_capture_device(bits: u32) -> (r: bool)
    ensures
        r == (bits & (CAP_VIDEO_CAPTURE | CAP_VIDEO_CAPTURE_MPLANE) != 0),
{
    bits & (CAP_VIDEO_CAPTURE | CAP_VIDEO_CAPTURE_MPLANE) != 0
}

/// `name` alone when `present`, else nothing.
pub open spec fn named_if(present: bool, name: Seq<char>) -> Seq<Seq<char>> {
    if present {
        seq![name]
    } else {
        Seq::empty()
    }
}

/// Whether `bits` hold every bit of `flag`.
pub open spec fn has_flag(bits: u32, flag: u32) -> bool {
    bits & flag == flag
}

/// The names of the capabilities in `bits` that the interface shows.
pub open spec fn capability_name_list(bits: u32) -> Seq<Seq<char>> {
    named_if(has_flag(bits, CAP_VIDEO_CAPTURE), "videoCapture"@)
        + named_if(has_flag(bits, CAP_VIDEO_CAPTURE_MPLANE), "videoCaptureMultiPlanar"@)
        + named_if(has_flag(bits, CAP_READ_WRITE), "readWrite"@)
        + named_if(has_flag(bits, CAP_ASYNC_IO), "asyncIo"@)
        + named_if(has_flag(bits, CAP_STREAMING), "streaming"@)
        + named_if(has_flag(bits, CAP_EXT_PIX_FORMAT), "extendedPixelFormat"@)
        + named_if(has_flag(bits, CAP_AUDIO), "audio"@)
}

/// Appends `name` to `names` when `bits` hold `flag`.
fn push_flag_name(names: &mut Vec<String>, bits: u32, flag: u32, name: &str)
    ensures
        final(names)@.map_values(|s: String| s@) == old(names)@.map_values(|s: String| s@)
            + named_if(has_flag(bits, flag), name@),
{
    let ghost before = names@;
    if bits & flag == flag {
        names.push(name.to_owned());
        assert(names@.map_values(|s: String| s@) =~= before.map_values(|s: String| s@) + seq![name@]);
    } else {
        assert(names@.map_values(|s: String| s@) =~= before.map_values(|s: String| s@) + Seq::empty());
    }
}

/// Names the capabilities in `bits`.
pub fn capability_names(bits: u32) -> (r: Vec<String>)
    ensures
        r@.map_values(|s: String| s@) == capability_name_list(bits),
{
    let mut names: Vec<String> = Vec::new();
    assert(names@.map_values(|s: String| s@) =~= Seq::empty());
    push_flag_name(&mut names, bits, CAP_VIDEO_CAPTURE, "videoCapture");
    push_flag_name(&mut names, bits, CAP_VIDEO_CAPTURE_MPLANE, "videoCaptureMultiPlanar");
    push_flag_name(&mut names, bits, CAP_READ_WRITE, "readWrite");
    push_flag_name(&mut names, bits, CAP_ASYNC_IO, "asyncIo");
    push_flag_name(&mut names, bits, CAP_STREAMING, "streaming");
    push_flag_name(&mut names, bits, CAP_EXT_PIX_FORMAT, "extendedPixelFormat");
    push_flag_name(&mut names, bits, CAP_AUDIO, "audio");
    assert(names@.map_values(|s: String| s@) =~= capability_name_list(bits));
    names
}

/// The names of the control flags in `bits`.
pub open spec fn control_flag_name_list(bits: u32) -> Seq<Seq<char>> {
    named_if(has_flag(bits, CTRL_DISABLED), "disabled"@)
        + named_if(has_flag(bits, CTRL_GRABBED), "grabbed"@)
        + named_if(has_flag(bits, CTRL_READ_ONLY), "readOnly"@)
        + named_if(has_flag(bits, CTRL_UPDATE), "update"@)
        + named_if(has_flag(bits, CTRL_INACTIVE), "inactive"@)
        + named_if(has_flag(bits, CTRL_SLIDER), "slider"@)
        + named_if(has_flag(bits, CTRL_WRITE_ONLY), "writeOnly"@)
        + named_if(has_flag(bits, CTRL_VOLATILE), "volatile"@)
        + named_if(has_flag(bits, CTRL_HAS_PAYLOAD), "hasPayload"@)
        + named_if(has_flag(bits, CTRL_EXECUTE_ON_WRITE), "executeOnWrite"@)
        + named_if(has_flag(bits, CTRL_MODIFY_LAYOUT), "modifyLayout"@)
}

/// Names the control flags in `bits`.
pub fn control_flag_names(bits: u32) -> (r: Vec<String>)
    ensures
        r@.map_values(|s: String| s@) == control_flag_name_list(bits),
{
    let mut names: Vec<String> = Vec::new();
    assert(names@.map_values(|s: String| s@) =~= Seq::empty());
    push_flag_name(&mut names, bits, CTRL_DISABLED, "disabled");
    push_flag_name(&mut names, bits, CTRL_GRABBED, "grabbed");
    push_flag_name(&mut names, bits, CTRL_READ_ONLY, "readOnly");
    push_flag_name(&mut names, bits, CTRL_UPDATE, "update");
    push_flag_name(&mut names, bits, CTRL_INACTIVE, "inactive");
    push_flag_name(&mut names, bits, CTRL_SLIDER, "slider");
    push_flag_name(&mut names, bits, CTRL_WRITE_ONLY, "writeOnly");
    push_flag_name(&mut names, bits, CTRL_VOLATILE, "volatile");
    push_flag_name(&mut names, bits, CTRL_HAS_PAYLOAD, "hasPayload");
    push_flag_name(&mut names, bits, CTRL_EXECUTE_ON_WRITE, "executeOnWrite");
    push_flag_name(&mut names, bits, CTRL_MODIFY_LAYOUT, "modifyLayout");
    assert(names@.map_values(|s: String| s@) =~= control_flag_name_list(bits));
    names
}

/// `value` trimmed, or none when nothing is left.
pub fn non_empty_trimmed(value: &str) -> (r: Option<String>)
    ensures
        trimmed(value@).len() == 0 ==> r is None,
        trimmed(value@).len() > 0 ==> (r matches Some(s) && s@ == trimmed(value@)),
{
    let t = trim(value);
    if t.as_str().is_empty() {
        None
    } else {
        Some(t)
    }
}

/// The form in which names and buses are compared: words joined by single
/// spaces, in lower case.
pub open spec fn identity(value: Seq<char>) -> Seq<char> {
    lowercase(collapsed(value))
}

/// `value` in the form in which names and buses are compared.
pub fn identity_part(value: &str) -> (r: String)
    ensures
        r@ == identity(value@),
        r@.len() == 0 <==> collapsed(value@).len() == 0,
{
    let cs = chars_of(value);
    let words = collapse_chars(&cs);
    let joined = string_from_chars(&words);
    to_lowercase(joined.as_str())
}

/// The drivers of virtual video devices.
pub open spec fn virtual_drivers() -> Seq<Seq<char>> {
    seq!["v4l2loopback"@, "v4l2 loopback"@, "akvcam"@, "vivid"@, "vimc"@, "vicodec"@]
}

/// Whether a device is virtual, judged by its driver, card name and bus:
/// a known virtual driver, a loopback bus, or a name that says it is a
/// virtual camera or webcam.
pub open spec fn is_virtual_spec(driver: Seq<char>, name: Seq<char>, bus: Seq<char>) -> bool {
    let d = identity(driver);
    let n = identity(name);
    let b = identity(bus);
    ||| exists|k: int| 0 <= k < virtual_drivers().len() && contains_seq(d, #[trigger] virtual_drivers()[k])
    ||| contains_seq(b, "v4l2loopback"@)
    ||| contains_seq(n, "virtual camera"@)
    ||| contains_seq(n, "virtual webcam"@)
}

/// Whether the device with this driver, card name and bus is virtual.
pub fn is_virtual_camera(driver: &str, name: &str, bus: &str) -> (r: bool)
    ensures
        r == is_virtual_spec(driver@, name@, bus@),
{
    let d = chars_of(identity_part(driver).as_str());
    let n = chars_of(identity_part(name).as_str());
    let b = chars_of(identity_part(bus).as_str());
    let drivers = [
        "v4l2loopback",
        "v4l2 loopback",
        "akvcam",
        "vivid",
        "vimc",
        "vicodec",
    ];
    let mut k: usize = 0;
    while k < 6
        invariant
            k <= 6,
            d@ == identity(driver@),
            forall|j: int| 0 <= j < 6 ==> (#[trigger] drivers@[j])@ == virtual_drivers()[j],
            forall|j: int| 0 <= j < k ==> !contains_seq(d@, #[trigger] virtual_drivers()[j]),
        decreases 6 - k,
    {
        if contains_chars(&d, &chars_of(drivers[k])) {
            return true;
        }
        k = k + 1;
    }
    contains_chars(&b, &chars_of("v4l2loopback")) || contains_chars(&n, &chars_of("virtual camera"))
        || contains_chars(&n, &chars_of("virtual webcam"))
}

/// A device is virtual exactly when, with whitespace collapsed and in lower
/// case, its driver mentions one of the loopback, akvcam, vivid, vimc or
/// vicodec drivers, its bus mentions v4l2loopback, or its card name says it
/// is a virtual camera or a virtual webcam, whatever the other two read.
pub proof fn virtual_camera_law(driver: Seq<char>, name: Seq<char>, bus: Seq<char>)
    ensures
        is_virtual_spec(driver, name, bus) <==> {
            ||| contains_seq(lowercase(collapsed(driver)), "v4l2loopback"@)
            ||| contains_seq(lowercase(collapsed(driver)), "v4l2 loopback"@)
            ||| contains_seq(lowercase(collapsed(driver)), "akvcam"@)
            ||| contains_seq(lowercase(collapsed(driver)), "vivid"@)
            ||| contains_seq(lowercase(collapsed(driver)), "vimc"@)
            ||| contains_seq(lowercase(collapsed(driver)), "vicodec"@)
            ||| contains_seq(lowercase(collapsed(bus)), "v4l2loopback"@)
            ||| contains_seq(lowercase(collapsed(name)), "virtual camera"@)
            ||| contains_seq(lowercase(collapsed(name)), "virtual webcam"@)
        },
{
    let d = identity(driver);
    let drivers = virtual_drivers();
    assert(drivers[0] == "v4l2loopback"@ && drivers[1] == "v4l2 loopback"@ && drivers[2] == "akvcam"@);
    assert(drivers[3] == "vivid"@ && drivers[4] == "vimc"@ && drivers[5] == "vicodec"@);
    if exists|k: int| 0 <= k < drivers.len() && contains_seq(d, #[trigger] drivers[k]) {
        let k = choose|k: int| 0 <= k < drivers.len() && contains_seq(d, #[trigger] drivers[k]);
        assert(0 <= k < 6);
    }
}

/// The name shown for a capture device: its card name trimmed, else the
/// file name of its node, else its path.
pub open spec fn camera_name_spec(card: Seq<char>, path: Seq<char>) -> Seq<char> {
    if trimmed(card).len() > 0 {
        trimmed(card)
    } else {
        match file_name_of(path) {
            Some(name) => name,
            None => path,
        }
    }
}

/// The name shown for the capture device with card name `card` at `path`.
pub fn camera_name(card: &str, path: &str) -> (r: String)
    ensures
        r@ == camera_name_spec(card@, path@),
{
    match non_empty_trimmed(card) {
        Some(name) => name,
        None => match path_file_name(path) {
            Some(name) => name,
            None => path.to_owned(),
        },
    }
}

/// The name under which a probed video node at `path` is listed, or nothing
/// where the node is left out: it cannot capture, or it is a virtual camera.
pub fn listed_node_name(capability_bits: u32, driver: &str, card: &str, bus: &str, path: &str) -> (r: Option<String>)
    ensures
        match r {
            Some(name) => {
                &&& capability_bits & (CAP_VIDEO_CAPTURE | CAP_VIDEO_CAPTURE_MPLANE) != 0
                &&& name@ == camera_name_spec(card@, path@)
                &&& !is_virtual_spec(driver@, name@, bus@)
            },
            None => capability_bits & (CAP_VIDEO_CAPTURE | CAP_VIDEO_CAPTURE_MPLANE) == 0
                || is_virtual_spec(driver@, camera_name_spec(card@, path@), bus@),
        },
{
    if !is_capture_device(capability_bits) {
        return None;
    }
    let name = camera_name(card, path);
    if is_virtual_camera(driver, name.as_str(), bus) {
        None
    } else {
        Some(name)
    }
}

/// The driver version `major.minor.patch`.
pub fn driver_version(major: u8, minor: u8, patch: u8) -> (r: String)
    ensures
        r@ == decimal(major as nat) + seq!['.'] + decimal(minor as nat) + seq!['.'] + decimal(patch as nat),
{
    let mut out: Vec<char> = Vec::new();
    push_decimal(&mut out, major as u64);
    out.push('.');
    push_decimal(&mut out, minor as u64);
    out.push('.');
    push_decimal(&mut out, patch as u64);
    string_from_chars(&out)
}

/// The number whose little-endian bytes are `repr`.
pub open spec fn le_value(repr: [u8; 4]) -> u32 {
    (repr[0] as int + repr[1] as int * 0x100 + repr[2] as int * 0x1_0000 + repr[3] as int * 0x100_0000) as u32
}

/// How a pixel format's four character code reads: its text when its bytes
/// are UTF-8, else `0x` and the hexadecimal digits of its little-endian
/// value.
pub open spec fn fourcc_text(repr: [u8; 4]) -> Seq<char> {
    if vstd::utf8::valid_utf8(repr@) {
        vstd::utf8::decode_utf8(repr@)
    } else {
        hex_u32(le_value(repr))
    }
}

/// How the four character code `repr` reads.
pub fn fourcc_string(repr: [u8; 4]) -> (r: String)
    ensures
        r@ == fourcc_text(repr),
{
    match utf8_to_string(&repr) {
        Some(text) => text,
        None => {
            let value: u32 = repr[0] as u32 + repr[1] as u32 * 0x100 + repr[2] as u32 * 0x1_0000
                + repr[3] as u32 * 0x100_0000;
            let mut out: Vec<char> = Vec::new();
            push_hex_u32(&mut out, value);
            string_from_chars(&out)
        },
    }
}

/// The bytes of a command line up to its first NUL, which hold the path of
/// the executable.
pub open spec fn first_argument(cmdline: Seq<u8>) -> Seq<u8> {
    if exists|k: int| 0 <= k < cmdline.len() && cmdline[k] == 0 {
        cmdline.take(choose|k: int| 0 <= k < cmdline.len() && cmdline[k] == 0 && forall|j: int| 0 <= j < k ==> cmdline[j] != 0)
    } else {
        cmdline
    }
}

/// The file name of the executable that a process command line starts,
/// when that path is UTF-8.
pub open spec fn executable_name_spec(cmdline: Seq<u8>) -> Option<Seq<char>> {
    let first = first_argument(cmdline);
    if vstd::utf8::valid_utf8(first) {
        file_name_of(vstd::utf8::decode_utf8(first))
    } else {
        None
    }
}

/// The file name of the executable that the command line `cmdline` (its
/// arguments separated by NUL bytes) starts.
pub fn executable_name(cmdline: &[u8]) -> (r: Option<String>)
    ensures
        match executable_name_spec(cmdline@) {
            Some(name) => r matches Some(s) && s@ == name,
            None => r is None,
        },
{
    let mut end: usize = 0;
    while end < cmdline.len() && cmdline[end] != 0
        invariant
            end <= cmdline.len(),
            forall|j: int| 0 <= j < end ==> cmdline@[j] != 0,
        decreases cmdline.len() - end,
    {
        end = end + 1;
    }
    proof {
        if end < cmdline.len() {
            let k = choose|k: int| 0 <= k < cmdline@.len() && cmdline@[k] == 0 && forall|j: int| 0 <= j < k ==> cmdline@[j] != 0;
            assert(k == end as int) by {
                if k < end {
                } else if k > end {
                    assert(cmdline@[end as int] == 0);
                }
            }
        } else {
            assert(cmdline@.take(end as int) == cmdline@);
        }
    }
    let (first, _) = cmdline.split_at(end);
    match utf8_to_string(first) {
        Some(path) => path_file_name(path.as_str()),
        None => None,
    }
}

/// The name shown for process `pid` when it has no name of its own.
pub open spec fn unnamed_process(pid: u32) -> Seq<char> {
    "process "@ + decimal(pid as nat)
}

/// The name shown for process `pid` whose name is `name`, if known: without
/// trailing `.bin` and `.exe`, with its first character in upper case.
pub open spec fn process_display_spec(name: Option<Seq<char>>, pid: u32) -> Seq<char> {
    let base = match name {
        Some(n) => n,
        None => unnamed_process(pid),
    };
    let stripped = without_suffixes(without_suffixes(base, ".bin"@), ".exe"@);
    if stripped.len() == 0 {
        unnamed_process(pid)
    } else {
        uppercase(stripped[0]) + stripped.skip(1)
    }
}

fn unnamed_process_name(pid: u32) -> (r: String)
    ensures
        r@ == unnamed_process(pid),
{
    let mut out: Vec<char> = Vec::new();
    append_str(&mut out, "process ");
    push_decimal(&mut out, pid as u64);
    string_from_chars(&out)
}

/// The name shown for process `pid`, given the name read from the process
/// (its command name, or else its executable's file name).
pub fn process_display_name(name: Option<String>, pid: u32) -> (r: String)
    ensures
        r@ == process_display_spec(
            match name {
                Some(n) => Some(n@),
                None => None,
            },
            pid,
        ),
{
    let base = match name {
        Some(n) => n,
        None => unnamed_process_name(pid),
    };
    let cs = chars_of(base.as_str());
    let bin = chars_of(".bin");
    let exe = chars_of(".exe");
    proof {
        reveal_strlit(".bin");
        reveal_strlit(".exe");
    }
    let end1 = strip_suffixes(&cs, &bin);
    let first = string_from_range(&cs, 0, end1);
    let cs1 = chars_of(first.as_str());
    let end2 = strip_suffixes(&cs1, &exe);
    if end2 == 0 {
        return unnamed_process_name(pid);
    }
    let head = char_to_uppercase(cs1[0]);
    let mut out: Vec<char> = chars_of(head.as_str());
    let mut i: usize = 1;
    let ghost stripped = cs1@.subrange(0, end2 as int);
    while i < end2
        invariant
            1 <= i <= end2 <= cs1.len(),
            stripped == cs1@.subrange(0, end2 as int),
            out@ == uppercase(stripped[0]) + stripped.subrange(1, i as int),
        decreases end2 - i,
    {
        out.push(cs1[i]);
        assert(stripped.subrange(1, i + 1) == stripped.subrange(1, i as int).push(stripped[i as int]));
        i = i + 1;
    }
    assert(stripped.subrange(1, end2 as int) == stripped.skip(1));
    string_from_chars(&out)
}


/// The kinds of V4L2 controls.
#[derive(Debug, Clone, Copy, PartialEq, Eq, Structural)]
pub enum ControlType {
    Integer,
    Boolean,
    Menu,
    Button,
    Integer64,
    CtrlClass,
    String,
    Bitmask,
    IntegerMenu,
    U8,
    U16,
    U32,
    Area,
}

/// What the control logic reads of a requested JSON value: the boolean,
/// the integer that fits in 64 bits, or the text it holds, if any.
#[derive(Debug)]
pub struct ControlInput {
    pub as_bool: Option<bool>,
    pub as_i64: Option<i64>,
    pub as_str: Option<String>,
}

/// The value to write to a control; a button takes no value.
#[derive(Debug)]
pub enum ControlValue {
    Nothing,
    Integer(i64),
    Boolean(bool),
    Text(String),
}

/// What the control logic reads of a control that the device describes.
#[derive(Debug)]
pub struct ControlDescription {
    pub id: u32,
    pub name: String,
    pub control_type: ControlType,
    pub flag_bits: u32,
}

/// The flags that forbid changing a control.
pub open spec fn locked_flags() -> u32 {
    CTRL_DISABLED | CTRL_READ_ONLY | CTRL_INACTIVE
}

/// The first description of control `id`, if any.
pub open spec fn first_control(controls: Seq<ControlDescription>, id: u32) -> Option<int> {
    if exists|k: int| 0 <= k < controls.len() && (#[trigger] controls[k]).id == id {
        Some(choose|k: int| 0 <= k < controls.len() && controls[k].id == id && forall|j: int| 0 <= j < k ==> (#[trigger] controls[j]).id != id)
    } else {
        None
    }
}

/// What changing control `id` of a device with `controls` to `input`
/// writes, or why it cannot be done.
pub open spec fn control_update_spec(controls: Seq<ControlDescription>, id: u32, input: ControlInput) -> Result<ControlValue, Seq<char>> {
    match first_control(controls, id) {
        None => Err("Camera control "@ + decimal(id as nat) + " was not found"@),
        Some(k) => {
            let c = controls[k];
            if c.flag_bits & locked_flags() != 0 {
                Err(c.name@ + " cannot be changed"@)
            } else {
                match c.control_type {
                    ControlType::Boolean => match input.as_bool {
                        Some(b) => Ok(ControlValue::Boolean(b)),
                        None => Err(c.name@ + " expects a boolean"@),
                    },
                    ControlType::Integer | ControlType::Integer64 | ControlType::Menu
                    | ControlType::IntegerMenu | ControlType::Bitmask => match input.as_i64 {
                        Some(v) => Ok(ControlValue::Integer(v)),
                        None => Err(c.name@ + " expects an integer"@),
                    },
                    ControlType::Button => Ok(ControlValue::Nothing),
                    ControlType::String => match input.as_str {
                        Some(t) => Ok(ControlValue::Text(t)),
                        None => Err(c.name@ + " expects text"@),
                    },
                    _ => Err(c.name@ + " is not an editable control"@),
                }
            }
        },
    }
}

/// Changing a control that no description has is refused, naming its
/// number.
pub proof fn missing_control_is_refused(controls: Seq<ControlDescription>, id: u32, input: ControlInput)
    requires
        forall|j: int| 0 <= j < controls.len() ==> (#[trigger] controls[j]).id != id,
    ensures
        control_update_spec(controls, id, input) == Err::<ControlValue, Seq<char>>(
            "Camera control "@ + decimal(id as nat) + " was not found"@,
        ),
{
}

/// Changing the control `controls[k]`, the first one with number `id`: it
/// is refused while disabled, read-only or inactive; otherwise an integer,
/// 64-bit integer, menu, integer menu or bitmask control takes the input's
/// integer, a boolean control its boolean, a text control its text and a
/// button nothing, each refused with the kind it expects when the input
/// lacks it; every other kind is refused as not editable.
pub proof fn control_update_law(controls: Seq<ControlDescription>, id: u32, input: ControlInput, k: int)
    requires
        0 <= k < controls.len(),
        controls[k].id == id,
        forall|j: int| 0 <= j < k ==> (#[trigger] controls[j]).id != id,
    ensures
        ({
            let c = controls[k];
            let r = control_update_spec(controls, id, input);
            if c.flag_bits & (CTRL_DISABLED | CTRL_READ_ONLY | CTRL_INACTIVE) != 0 {
                r == Err::<ControlValue, Seq<char>>(c.name@ + " cannot be changed"@)
            } else if c.control_type == ControlType::Integer || c.control_type == ControlType::Integer64
                || c.control_type == ControlType::Menu || c.control_type == ControlType::IntegerMenu
                || c.control_type == ControlType::Bitmask {
                r == match input.as_i64 {
                    Some(v) => Ok::<ControlValue, Seq<char>>(ControlValue::Integer(v)),
                    None => Err(c.name@ + " expects an integer"@),
                }
            } else if c.control_type == ControlType::Boolean {
                r == match input.as_bool {
                    Some(b) => Ok::<ControlValue, Seq<char>>(ControlValue::Boolean(b)),
                    None => Err(c.name@ + " expects a boolean"@),
                }
            } else if c.control_type == ControlType::String {
                r == match input.as_str {
                    Some(t) => Ok::<ControlValue, Seq<char>>(ControlValue::Text(t)),
                    None => Err(c.name@ + " expects text"@),
                }
            } else if c.control_type == ControlType::Button {
                r == Ok::<ControlValue, Seq<char>>(ControlValue::Nothing)
            } else {
                r == Err::<ControlValue, Seq<char>>(c.name@ + " is not an editable control"@)
            }
        }),
{
    assert(exists|f: int| 0 <= f < controls.len() && (#[trigger] controls[f]).id == id);
    let f = choose|f: int| 0 <= f < controls.len() && controls[f].id == id && forall|j: int| 0 <= j < f ==> (#[trigger] controls[j]).id != id;
    assert(f == k) by {
        if f < k {
        } else if f > k {
            assert(controls[k].id == id);
        }
    }
}

fn name_with(name: &String, tail: &str) -> (r: String)
    ensures
        r@ == name@ + tail@,
{
    let mut out: Vec<char> = Vec::new();
    append_str(&mut out, name.as_str());
    append_str(&mut out, tail);
    string_from_chars(&out)
}

/// Decides the value to write when control `id` is changed to `input`: the
/// control must exist and be neither disabled, read-only nor inactive, and
/// the input must suit its kind.
pub fn control_update(controls: &Vec<ControlDescription>, id: u32, input: ControlInput) -> (r: Result<ControlValue, String>)
    ensures
        match control_update_spec(controls@, id, input) {
            Ok(value) => r == Ok::<ControlValue, String>(value),
            Err(message) => r matches Err(e) && e@ == message,
        },
{
    let mut k: usize = 0;
    while k < controls.len() && controls[k].id != id
        invariant
            k <= controls.len(),
            forall|j: int| 0 <= j < k ==> (#[trigger] controls@[j]).id != id,
        decreases controls.len() - k,
    {
        k = k + 1;
    }
    if k == controls.len() {
        let mut out: Vec<char> = Vec::new();
        append_str(&mut out, "Camera control ");
        push_decimal(&mut out, id as u64);
        append_str(&mut out, " was not found");
        return Err(string_from_chars(&out));
    }
    proof {
        let f = choose|f: int| 0 <= f < controls@.len() && controls@[f].id == id && forall|j: int| 0 <= j < f ==> (#[trigger] controls@[j]).id != id;
        assert(f == k as int) by {
            if f < k {
            } else if f > k {
                assert(controls@[k as int].id == id);
            }
        }
    }
    let control = &controls[k];
    if control.flag_bits & (CTRL_DISABLED | CTRL_READ_ONLY | CTRL_INACTIVE) != 0 {
        return Err(name_with(&control.name, " cannot be changed"));
    }
    match control.control_type {
        ControlType::Boolean => match input.as_bool {
            Some(b) => Ok(ControlValue::Boolean(b)),
            None => Err(name_with(&control.name, " expects a boolean")),
        },
        ControlType::Integer | ControlType::Integer64 | ControlType::Menu | ControlType::IntegerMenu
        | ControlType::Bitmask => match input.as_i64 {
            Some(v) => Ok(ControlValue::Integer(v)),
            None => Err(name_with(&control.name, " expects an integer")),
        },
        ControlType::Button => Ok(ControlValue::Nothing),
        ControlType::String => match input.as_str {
            Some(t) => Ok(ControlValue::Text(t)),
            None => Err(name_with(&control.name, " expects text")),
        },
        _ => Err(name_with(&control.name, " is not an editable control")),
    }
}


/// A capture device found while scanning, with what deduplication and
/// ordering read of it: the camera's name, its bus and its node number.
pub struct DiscoveredDevice<C> {
    pub camera: C,
    pub name: String,
    pub bus: String,
    pub index: u64,
}

/// The bus of a device as endpoints are compared.
pub open spec fn bus_key<C>(d: DiscoveredDevice<C>) -> Seq<char> {
    identity(d.bus@)
}

/// The name of a device as endpoints are compared.
pub open spec fn name_key<C>(d: DiscoveredDevice<C>) -> Seq<char> {
    identity(d.name@)
}

/// The name of a device as devices are listed.
pub open spec fn listing_key<C>(d: DiscoveredDevice<C>) -> Seq<char> {
    lowercase(d.name@)
}

/// Whether the device at `q` is inspected before the one at `p`: lower
/// node numbers first, and the order of discovery among equal numbers.
pub open spec fn scanned_before<C>(s: Seq<DiscoveredDevice<C>>, q: int, p: int) -> bool {
    s[q].index < s[p].index || (s[q].index == s[p].index && q < p)
}

/// Whether the devices at `p` and `q` are the same capture endpoint: the
/// same physical connection and the same card name.
pub open spec fn same_endpoint<C>(s: Seq<DiscoveredDevice<C>>, p: int, q: int) -> bool {
    bus_key(s[p]) == bus_key(s[q]) && name_key(s[p]) == name_key(s[q])
}

/// Whether the device at `p` is kept: it has no bus information, or no
/// device of the same endpoint is inspected before it.
pub open spec fn is_kept<C>(s: Seq<DiscoveredDevice<C>>, p: int) -> bool {
    bus_key(s[p]).len() == 0 || !exists|q: int|
        0 <= q < s.len() && same_endpoint(s, q, p) && #[trigger] scanned_before(s, q, p)
}

/// Whether the device at `p` is listed before the one at `q`: by name
/// ignoring case, then in the order of inspection.
pub open spec fn listed_before<C>(s: Seq<DiscoveredDevice<C>>, p: int, q: int) -> bool {
    chars_less(listing_key(s[p]), listing_key(s[q])) || (listing_key(s[p]) == listing_key(s[q])
        && scanned_before(s, p, q))
}

/// Whether `out` lists the cameras of `s` at the positions `pos`: exactly
/// the kept devices, in listing order.
pub open spec fn structured<C>(s: Seq<DiscoveredDevice<C>>, out: Seq<C>, pos: Seq<int>) -> bool {
    &&& pos.len() == out.len()
    &&& forall|k: int| 0 <= k < pos.len() ==> 0 <= #[trigger] pos[k] < s.len() && out[k] == s[pos[k]].camera
    &&& forall|k: int, l: int| 0 <= k < l < pos.len() ==> listed_before(s, #[trigger] pos[k], #[trigger] pos[l])
    &&& forall|p: int| 0 <= p < s.len() ==> (is_kept(s, p) <==> pos.contains(p))
}

/// Listing order is a strict total order on the positions of `s`.
pub proof fn lemma_listed_before_order<C>(s: Seq<DiscoveredDevice<C>>, p: int, q: int, r: int)
    ensures
        !listed_before(s, p, p),
        p != q ==> listed_before(s, p, q) || listed_before(s, q, p),
        listed_before(s, p, q) && listed_before(s, q, r) ==> listed_before(s, p, r),
        listed_before(s, p, q) ==> !listed_before(s, q, p),
{
    crate::text::lemma_chars_less_irreflexive(listing_key(s[p]));
    crate::text::lemma_chars_less_total(listing_key(s[p]), listing_key(s[q]));
    if chars_less(listing_key(s[p]), listing_key(s[q])) && chars_less(listing_key(s[q]), listing_key(s[r])) {
        crate::text::lemma_chars_less_transitive(listing_key(s[p]), listing_key(s[q]), listing_key(s[r]));
    }
    if chars_less(listing_key(s[p]), listing_key(s[q])) && chars_less(listing_key(s[q]), listing_key(s[p])) {
        crate::text::lemma_chars_less_transitive(listing_key(s[p]), listing_key(s[q]), listing_key(s[p]));
    }
}

/// The keys of each device: bus and name as endpoints compare them, and the
/// name as the listing orders it.
struct DeviceKeys {
    bus: Vec<char>,
    name: Vec<char>,
    listing: Vec<char>,
}

fn device_keys<C>(devices: &Vec<DiscoveredDevice<C>>) -> (keys: Vec<DeviceKeys>)
    ensures
        keys.len() == devices.len(),
        forall|p: int| 0 <= p < keys.len() ==> {
            &&& (#[trigger] keys@[p]).bus@ == bus_key(devices@[p])
            &&& keys@[p].name@ == name_key(devices@[p])
            &&& keys@[p].listing@ == listing_key(devices@[p])
            &&& (keys@[p].bus@.len() == 0 <==> collapsed(devices@[p].bus@).len() == 0)
        },
{
    let mut keys: Vec<DeviceKeys> = Vec::new();
    let mut p: usize = 0;
    while p < devices.len()
        invariant
            p <= devices.len(),
            keys.len() == p,
            forall|x: int| 0 <= x < p ==> {
                &&& (#[trigger] keys@[x]).bus@ == bus_key(devices@[x])
                &&& keys@[x].name@ == name_key(devices@[x])
                &&& keys@[x].listing@ == listing_key(devices@[x])
                &&& (keys@[x].bus@.len() == 0 <==> collapsed(devices@[x].bus@).len() == 0)
            },
        decreases devices.len() - p,
    {
        let d = &devices[p];
        keys.push(
            DeviceKeys {
                bus: chars_of(identity_part(d.bus.as_str()).as_str()),
                name: chars_of(identity_part(d.name.as_str()).as_str()),
                listing: chars_of(to_lowercase(d.name.as_str()).as_str()),
            },
        );
        p = p + 1;
    }
    keys
}

fn scanned_before_exec<C>(devices: &Vec<DiscoveredDevice<C>>, q: usize, p: usize) -> (r: bool)
    requires
        q < devices.len(),
        p < devices.len(),
    ensures
        r == scanned_before(devices@, q as int, p as int),
{
    devices[q].index < devices[p].index || (devices[q].index == devices[p].index && q < p)
}

fn kept_exec<C>(devices: &Vec<DiscoveredDevice<C>>, keys: &Vec<DeviceKeys>, p: usize) -> (r: bool)
    requires
        p < devices.len(),
        keys.len() == devices.len(),
        forall|x: int| 0 <= x < keys.len() ==> {
            &&& (#[trigger] keys@[x]).bus@ == bus_key(devices@[x])
            &&& keys@[x].name@ == name_key(devices@[x])
        },
    ensures
        r == is_kept(devices@, p as int),
{
    if keys[p].bus.len() == 0 {
        return true;
    }
    let mut q: usize = 0;
    while q < devices.len()
        invariant
            q <= devices.len(),
            p < devices.len(),
            keys.len() == devices.len(),
            forall|x: int| 0 <= x < keys.len() ==> {
                &&& (#[trigger] keys@[x]).bus@ == bus_key(devices@[x])
                &&& keys@[x].name@ == name_key(devices@[x])
            },
            keys@[p as int].bus@.len() > 0,
            forall|x: int| 0 <= x < q ==> !(same_endpoint(devices@, x, p as int) && #[trigger] scanned_before(devices@, x, p as int)),
        decreases devices.len() - q,
    {
        if same_chars(&keys[q].bus, &keys[p].bus) && same_chars(&keys[q].name, &keys[p].name)
            && scanned_before_exec(devices, q, p) {
            assert(keys@[q as int].bus@ == bus_key(devices@[q as int]));
            assert(keys@[p as int].bus@ == bus_key(devices@[p as int]));
            assert(same_endpoint(devices@, q as int, p as int));
            assert(scanned_before(devices@, q as int, p as int));
            return false;
        }
        q = q + 1;
    }
    true
}

fn listed_before_exec<C>(devices: &Vec<DiscoveredDevice<C>>, keys: &Vec<DeviceKeys>, p: usize, q: usize) -> (r: bool)
    requires
        p < devices.len(),
        q < devices.len(),
        keys.len() == devices.len(),
        forall|x: int| 0 <= x < keys.len() ==> (#[trigger] keys@[x]).listing@ == listing_key(devices@[x]),
    ensures
        r == listed_before(devices@, p as int, q as int),
{
    assert(keys@[p as int].listing@ == listing_key(devices@[p as int]));
    assert(keys@[q as int].listing@ == listing_key(devices@[q as int]));
    less_chars(&keys[p].listing, &keys[q].listing) || (same_chars(&keys[p].listing, &keys[q].listing)
        && scanned_before_exec(devices, p, q))
}

/// Orders the kept devices: the positions of `devices` that are kept, in
/// listing order.
fn listing_order<C>(devices: &Vec<DiscoveredDevice<C>>) -> (order: Vec<usize>)
    ensures
        forall|k: int| 0 <= k < order.len() ==> #[trigger] order@[k] < devices.len(),
        forall|k: int, l: int| 0 <= k < l < order.len() ==> listed_before(devices@, #[trigger] order@[k] as int, #[trigger] order@[l] as int),
        forall|p: int| 0 <= p < devices.len() ==> (is_kept(devices@, p) <==> order@.contains(p as usize)),
        forall|p: int| 0 <= p < devices.len() ==> (bus_key(#[trigger] devices@[p]).len() == 0 <==> collapsed(devices@[p].bus@).len() == 0),
{
    let keys = device_keys(devices);
    assert forall|p: int| 0 <= p < devices.len() implies (bus_key(#[trigger] devices@[p]).len() == 0 <==> collapsed(devices@[p].bus@).len() == 0) by {
        assert(keys@[p].bus@ == bus_key(devices@[p]));
    }
    let mut order: Vec<usize> = Vec::new();
    let mut p: usize = 0;
    while p < devices.len()
        invariant
            p <= devices.len(),
            keys.len() == devices.len(),
            forall|x: int| 0 <= x < keys.len() ==> {
                &&& (#[trigger] keys@[x]).bus@ == bus_key(devices@[x])
                &&& keys@[x].name@ == name_key(devices@[x])
                &&& keys@[x].listing@ == listing_key(devices@[x])
            },
            forall|k: int| 0 <= k < order.len() ==> #[trigger] order@[k] < p,
            forall|k: int, l: int| 0 <= k < l < order.len() ==> listed_before(devices@, #[trigger] order@[k] as int, #[trigger] order@[l] as int),
            forall|x: int| 0 <= x < p ==> (is_kept(devices@, x) <==> order@.contains(x as usize)),
        decreases devices.len() - p,
    {
        if kept_exec(devices, &keys, p) {
            let mut j: usize = 0;
            while j < order.len() && !listed_before_exec(devices, &keys, p, order[j])
                invariant
                    j <= order.len(),
                    p < devices.len(),
                    keys.len() == devices.len(),
                    forall|x: int| 0 <= x < keys.len() ==> (#[trigger] keys@[x]).listing@ == listing_key(devices@[x]),
                    forall|k: int| 0 <= k < order.len() ==> #[trigger] order@[k] < p,
                    forall|k: int| 0 <= k < j ==> !listed_before(devices@, p as int, #[trigger] order@[k] as int),
                decreases order.len() - j,
            {
                j = j + 1;
            }
            let ghost old_order = order@;
            order.insert(j, p);
            proof {
                assert forall|k: int| 0 <= k < j implies listed_before(devices@, #[trigger] old_order[k] as int, p as int) by {
                    lemma_listed_before_order(devices@, old_order[k] as int, p as int, p as int);
                }
                assert forall|k: int| j <= k < old_order.len() implies listed_before(devices@, p as int, #[trigger] old_order[k] as int) by {
                    if k > j {
                        lemma_listed_before_order(devices@, p as int, old_order[j as int] as int, old_order[k] as int);
                    }
                }
                assert forall|k: int, l: int| 0 <= k < l < order.len() implies listed_before(devices@, #[trigger] order@[k] as int, #[trigger] order@[l] as int) by {
                    if l < j {
                    } else if l == j {
                        assert(order@[k] == old_order[k]);
                    } else if k < j {
                        assert(order@[k] == old_order[k]);
                        assert(order@[l] == old_order[l - 1]);
                        lemma_listed_before_order(devices@, old_order[k] as int, p as int, old_order[l - 1] as int);
                    } else if k == j {
                        assert(order@[l] == old_order[l - 1]);
                    } else {
                        assert(order@[k] == old_order[k - 1]);
                        assert(order@[l] == old_order[l - 1]);
                    }
                }
                assert forall|x: int| 0 <= x < p + 1 implies (is_kept(devices@, x) <==> order@.contains(x as usize)) by {
                    if x < p {
                        if old_order.contains(x as usize) {
                            let k = choose|k: int| 0 <= k < old_order.len() && old_order[k] == x as usize;
                            if k < j {
                                assert(order@[k] == x as usize);
                            } else {
                                assert(order@[k + 1] == x as usize);
                            }
                        }
                        if order@.contains(x as usize) {
                            let k = choose|k: int| 0 <= k < order@.len() && order@[k] == x as usize;
                            if k < j {
                                assert(old_order[k] == x as usize);
                            } else if k > j {
                                assert(old_order[k - 1] == x as usize);
                            }
                        }
                    } else {
                        assert(order@[j as int] == p);
                    }
                }
                assert forall|k: int| 0 <= k < order.len() implies #[trigger] order@[k] < p + 1 by {
                    if k < j {
                        assert(order@[k] == old_order[k]);
                    } else if k > j {
                        assert(order@[k] == old_order[k - 1]);
                    }
                }
            }
        } else {
            proof {
                assert forall|x: int| 0 <= x < p + 1 implies (is_kept(devices@, x) <==> order@.contains(x as usize)) by {
                    if x == p {
                        if order@.contains(x as usize) {
                            let k = choose|k: int| 0 <= k < order@.len() && order@[k] == x as usize;
                            assert(order@[k] < p);
                        }
                    }
                }
            }
        }
        p = p + 1;
    }
    order
}

/// Lists the cameras of the discovered capture devices. A physical
/// connection can expose several capture endpoints (say a colour and an
/// infrared camera), told apart by their card names; of the nodes of one
/// endpoint only the lowest numbered is kept, while devices without bus
/// information (an empty or blank bus) are all kept, since distinct devices
/// may share a name. The result is ordered by name, ignoring case, then by
/// node number.
pub fn structure_devices<C>(devices: Vec<DiscoveredDevice<C>>) -> (r: Vec<C>)
    ensures
        exists|pos: Seq<int>| structured(devices@, r@, pos),
        forall|p: int| 0 <= p < devices@.len() ==> (bus_key(#[trigger] devices@[p]).len() == 0 <==> collapsed(devices@[p].bus@).len() == 0),
        forall|p: int| 0 <= p < devices@.len() && is_blank(devices@[p].bus@) ==> is_kept(devices@, p),
{
    let order = listing_order(&devices);
    let ghost original = devices@;
    let mut slots: Vec<Option<DiscoveredDevice<C>>> = Vec::new();
    for d in it: devices.into_iter()
        invariant
            slots.len() == it.index(),
            it.seq() == original,
            forall|x: int| 0 <= x < slots.len() ==> #[trigger] slots@[x] == Some(original[x]),
    {
        slots.push(Some(d));
    }
    let mut out: Vec<C> = Vec::new();
    let mut k: usize = 0;
    while k < order.len()
        invariant
            k <= order.len(),
            slots.len() == original.len(),
            forall|x: int| 0 <= x < order.len() ==> #[trigger] order@[x] < original.len(),
            forall|x: int, y: int| 0 <= x < y < order.len() ==> listed_before(original, #[trigger] order@[x] as int, #[trigger] order@[y] as int),
            forall|x: int| k <= x < order.len() ==> slots@[#[trigger] order@[x] as int] == Some(original[order@[x] as int]),
            out.len() == k,
            forall|x: int| 0 <= x < k ==> #[trigger] out@[x] == original[order@[x] as int].camera,
        decreases order.len() - k,
    {
        let pos = order[k];
        let mut taken: Option<DiscoveredDevice<C>> = None;
        slots.set_and_swap(pos, &mut taken);
        proof {
            assert forall|x: int| k + 1 <= x < order.len() implies slots@[#[trigger] order@[x] as int] == Some(original[order@[x] as int]) by {
                lemma_listed_before_order(original, order@[k as int] as int, order@[x] as int, order@[x] as int);
                assert(order@[x] != order@[k as int]);
            }
        }
        match taken {
            Some(d) => {
                out.push(d.camera);
            },
            None => {
                assert(false);
            },
        }
        k = k + 1;
    }
    let ghost pos = order@.map_values(|x: usize| x as int);
    proof {
        assert forall|p: int| 0 <= p < original.len() implies (is_kept(original, p) <==> pos.contains(p)) by {
            if order@.contains(p as usize) {
                let i = choose|i: int| 0 <= i < order@.len() && order@[i] == p as usize;
                assert(pos[i] == p);
            }
            if pos.contains(p) {
                let i = choose|i: int| 0 <= i < pos.len() && pos[i] == p;
                assert(order@[i] == p as usize);
            }
        }
        assert(structured(original, out@, pos));
        assert forall|p: int| 0 <= p < original.len() && is_blank(original[p].bus@) implies is_kept(original, p) by {
            lemma_blank_collapses_to_empty(original[p].bus@);
            assert(bus_key(original[p]).len() == 0);
        }
    }
    out
}


/// Whether the device at `q` is kept and stands for the device at `p`: the
/// same endpoint, inspected no later.
pub open spec fn kept_for<C>(s: Seq<DiscoveredDevice<C>>, q: int, p: int) -> bool {
    0 <= q < s.len() && is_kept(s, q) && same_endpoint(s, q, p) && (q == p || scanned_before(s, q, p))
}

/// Every endpoint of a connection keeps a node: the first one inspected,
/// which has the lowest node number among the endpoint's nodes.
pub proof fn endpoint_keeps_first_node<C>(s: Seq<DiscoveredDevice<C>>, p: int)
    requires
        0 <= p < s.len(),
    ensures
        exists|q: int| #[trigger] kept_for(s, q, p),
    decreases s[p].index, p,
{
    if is_kept(s, p) {
        assert(kept_for(s, p, p));
    } else {
        let q = choose|q: int| 0 <= q < s.len() && same_endpoint(s, q, p) && #[trigger] scanned_before(s, q, p);
        endpoint_keeps_first_node(s, q);
        let q2 = choose|q2: int| #[trigger] kept_for(s, q2, q);
        assert(kept_for(s, q2, p));
    }
}

/// The structured list holds each endpoint once: two listed devices with
/// bus information are different endpoints.
pub proof fn structured_endpoints_are_distinct<C>(s: Seq<DiscoveredDevice<C>>, out: Seq<C>, pos: Seq<int>, k: int, l: int)
    requires
        structured(s, out, pos),
        0 <= k < pos.len(),
        0 <= l < pos.len(),
        k != l,
        bus_key(s[pos[k]]).len() > 0,
    ensures
        !same_endpoint(s, pos[k], pos[l]),
{
    let a = pos[k];
    let b = pos[l];
    assert(pos.contains(a));
    assert(pos.contains(b));
    if k < l {
        lemma_listed_before_order(s, a, b, b);
    } else {
        lemma_listed_before_order(s, b, a, a);
    }
    assert(a != b);
    if same_endpoint(s, a, b) {
        assert(is_kept(s, a));
        assert(is_kept(s, b));
        if scanned_before(s, a, b) {
            assert(same_endpoint(s, a, b));
        } else {
            assert(scanned_before(s, b, a));
            assert(same_endpoint(s, b, a));
        }
    }
}

/// Of each endpoint, the structured list holds the node inspected first;
/// every other node of it was left out for that one.
pub proof fn structured_keeps_lowest_node<C>(s: Seq<DiscoveredDevice<C>>, out: Seq<C>, pos: Seq<int>, p: int)
    requires
        structured(s, out, pos),
        0 <= p < s.len(),
    ensures
        exists|k: int|
            0 <= k < pos.len() && same_endpoint(s, #[trigger] pos[k], p) && (pos[k] == p || scanned_before(s, pos[k], p)),
{
    endpoint_keeps_first_node(s, p);
    let q = choose|q: int| #[trigger] kept_for(s, q, p);
    assert(pos.contains(q));
    let k = choose|k: int| 0 <= k < pos.len() && pos[k] == q;
    assert(same_endpoint(s, pos[k], p));
}

/// Devices without bus information are never merged: each is listed.
pub proof fn structured_keeps_devices_without_bus<C>(s: Seq<DiscoveredDevice<C>>, out: Seq<C>, pos: Seq<int>, p: int)
    requires
        structured(s, out, pos),
        0 <= p < s.len(),
        bus_key(s[p]).len() == 0,
    ensures
        pos.contains(p),
{
}

/// The structured list is ordered by name ignoring case: no camera is
/// listed after one whose name comes later.
pub proof fn structured_is_ordered_by_name<C>(s: Seq<DiscoveredDevice<C>>, out: Seq<C>, pos: Seq<int>, k: int, l: int)
    requires
        structured(s, out, pos),
        0 <= k < l < pos.len(),
    ensures
        !chars_less(listing_key(s[pos[l]]), listing_key(s[pos[k]])),
{
    lemma_listed_before_order(s, pos[k], pos[l], pos[l]);
    crate::text::lemma_chars_less_irreflexive(listing_key(s[pos[k]]));
    if chars_less(listing_key(s[pos[l]]), listing_key(s[pos[k]])) && chars_less(listing_key(s[pos[k]]), listing_key(s[pos[l]])) {
        crate::text::lemma_chars_less_transitive(listing_key(s[pos[l]]), listing_key(s[pos[k]]), listing_key(s[pos[l]]));
        crate::text::lemma_chars_less_irreflexive(listing_key(s[pos[l]]));
    }
}

} // verus!

use camux::cli::{devices_table, CameraDevice};
use camux::platform::linux::{
    is_capture_device, is_virtual_camera, structure_devices, video_device_index,
    DiscoveredDevice, CAP_META_CAPTURE, CAP_VIDEO_CAPTURE, CAP_VIDEO_CAPTURE_MPLANE,
    CAP_VIDEO_OUTPUT,
};
use camux::platform::macos::{self, VIRTUAL_TRANSPORT_TYPE};
use camux::settings::{escape_xml, quote_desktop_exec, AppSettings};
use camux::streaming::{complete_mjpeg_frame, FrameMailbox};

struct Listed {
    id: String,
}

fn discovered(index: u64, name: &str, bus: &str) -> DiscoveredDevice<Listed> {
    DiscoveredDevice {
        camera: Listed { id: format!("/dev/video{index}") },
        name: name.to_owned(),
        bus: bus.to_owned(),
        index,
    }
}

#[test]
fn accepts_only_numbered_video_nodes() {
    assert_eq!(video_device_index("video0"), Some(0));
    assert_eq!(video_device_index("video12"), Some(12));
    assert_eq!(video_device_index("video"), None);
    assert_eq!(video_device_index("video-decoder"), None);
    assert_eq!(video_device_index("video1-extra"), None);
}

#[test]
fn accepts_single_and_multi_planar_capture_devices() {
    assert!(is_capture_device(CAP_VIDEO_CAPTURE));
    assert!(is_capture_device(CAP_VIDEO_CAPTURE_MPLANE));
    assert!(!is_capture_device(CAP_META_CAPTURE));
    assert!(!is_capture_device(CAP_VIDEO_OUTPUT));
}

#[test]
fn rejects_virtual_camera_drivers_and_names() {
    assert!(is_virtual_camera(
        "v4l2 loopback",
        "OBS Virtual Camera",
        "platform:v4l2loopback-000"
    ));
    assert!(is_virtual_camera("akvcam", "Camera", "platform:akvcam"));
    assert!(is_virtual_camera("uvcvideo", "Virtual Webcam", "usb-1"));
    assert!(!is_virtual_camera(
        "uvcvideo",
        "EMEET SmartCam C60E 4K",
        "usb-0000:00:14.0-2"
    ));
}

#[test]
fn deduplicates_same_endpoint_and_keeps_lowest_numbered_node() {
    let devices = structure_devices(vec![
        discovered(10, "USB Camera", "usb-1"),
        discovered(2, "USB Camera", "usb-1"),
        discovered(4, "USB Camera IR", "usb-1"),
    ]);

    assert_eq!(devices.len(), 2);
    assert_eq!(devices[0].id, "/dev/video2");
    assert_eq!(devices[1].id, "/dev/video4");
}

#[test]
fn preserves_distinct_devices_without_bus_information() {
    let devices = structure_devices(vec![
        discovered(0, "Capture Device", ""),
        discovered(1, "Capture Device", ""),
    ]);

    assert_eq!(devices.len(), 2);
}

#[test]
fn rejects_virtual_transport_and_names() {
    assert!(macos::is_virtual_camera(
        VIRTUAL_TRANSPORT_TYPE,
        "Camera",
        "Vendor",
        "Model"
    ));
    assert!(macos::is_virtual_camera(0, "OBS Virtual Camera", "OBS", "Model"));
    assert!(!macos::is_virtual_camera(
        i32::from_be_bytes(*b"usb "),
        "Studio Camera",
        "Vendor",
        "Model"
    ));
}

#[test]
fn rejects_invalid_virtual_camera_names() {
    let mut settings = AppSettings {
        virtual_camera_name: "  ".to_owned(),
        ..AppSettings::default()
    };
    assert!(settings.validate().is_err());

    settings.virtual_camera_name = "Camux\nCamera".to_owned();
    assert!(settings.validate().is_err());
}

#[test]
fn trims_valid_virtual_camera_names() {
    let mut settings = AppSettings {
        virtual_camera_name: "  Studio Camera  ".to_owned(),
        ..AppSettings::default()
    };
    settings.validate().unwrap();
    assert_eq!(settings.virtual_camera_name, "Studio Camera");
}

#[test]
fn escapes_launch_agent_values() {
    assert_eq!(escape_xml("A&B <C>"), "A&amp;B &lt;C&gt;");
}

#[test]
fn quotes_desktop_entry_executables() {
    assert_eq!(quote_desktop_exec("/tmp/Camux App"), "\"/tmp/Camux App\"");
}

#[test]
fn keeps_only_complete_mjpeg_data() {
    let buffer = [0xff, 0xd8, 1, 2, 0xff, 0xd9, 0, 0];
    assert_eq!(complete_mjpeg_frame(&buffer, 8).unwrap(), &buffer[..6]);
    assert!(complete_mjpeg_frame(&buffer[..5], 5).is_err());
}

#[test]
fn frame_mailbox_retains_only_the_latest_frame() {
    let mut mailbox = FrameMailbox::default();
    mailbox.publish(&[1]);
    mailbox.publish(&[2]);
    assert_eq!(mailbox.next().unwrap(), vec![2]);
    mailbox.publish(&[3]);
    assert_eq!(mailbox.next().unwrap(), vec![3]);
}

#[test]
fn renders_devices_as_an_aligned_table() {
    let table = devices_table(&[
        CameraDevice {
            id: "/dev/video0".to_owned(),
            name: "Integrated Camera".to_owned(),
        },
        CameraDevice {
            id: "/dev/video2".to_owned(),
            name: "USB Camera".to_owned(),
        },
    ]);

    assert_eq!(
        table,
        "+-------------+-------------------+\n\
         | DEVICE      | NAME              |\n\
         +-------------+-------------------+\n\
         | /dev/video0 | Integrated Camera |\n\
         | /dev/video2 | USB Camera        |\n\
         +-------------+-------------------+"
    );
}

#[test]
fn sanitizes_multiline_values_and_aligns_wide_characters() {
    let table = devices_table(&[CameraDevice {
        id: "/dev/video0\nspoofed".to_owned(),
        name: "攝影機".to_owned(),
    }]);

    assert!(table.contains("| /dev/video0 spoofed | 攝影機 |"));
}

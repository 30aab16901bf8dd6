use camux::cli::{sanitize_cell, write_row};
use camux::platform::linux::{
    camera_name, capability_names, control_flag_names, control_update, driver_version,
    executable_name, fourcc_string, identity_part, listed_node_name, non_empty_trimmed,
    process_display_name,
    structure_devices, video_device_index, ControlDescription, ControlInput, ControlType,
    ControlValue, DiscoveredDevice, CAP_READ_WRITE, CAP_STREAMING, CAP_VIDEO_CAPTURE,
    CTRL_INACTIVE, CTRL_READ_ONLY, CTRL_SLIDER,
};
use camux::platform::macos::{
    self, availability, camera_capabilities, camera_position, DeviceState,
};
use camux::platform::unsupported::UnsupportedBackend;
use camux::platform::CameraPosition;
use camux::settings::{
    desktop_entry, driver_install_error, escape_xml, install_failure_message, launch_agent_plist,
    linux_virtual_camera_status, macos_virtual_camera_status, replace_step,
    unsupported_virtual_camera_status, AppSettings, Appearance, DisconnectBehavior,
    HardwareAcceleration, PreferredQuality, ReplaceAction, ReplaceEvent, VirtualCameraState,
};
use camux::streaming::{
    candidate_dimensions, capture_format_message, check_frame_fits, choose_mode,
    complete_mjpeg_frame, is_output_candidate, negotiated_format_differs, no_mode_message,
    output_format_message, output_not_ready_message, requested_dimensions, DetachOutcome,
    FrameMailbox, FrameSizeOffer, RoutePlan, SessionRegistry,
};

fn settings_named(name: &str) -> AppSettings {
    AppSettings {
        virtual_camera_name: name.to_owned(),
        ..AppSettings::default()
    }
}

#[test]
fn default_settings_match_the_interface_defaults() {
    let settings = AppSettings::default();
    assert_eq!(settings.appearance, Appearance::System);
    assert!(!settings.launch_at_login);
    assert!(settings.keep_running_when_closed);
    assert!(settings.restore_previous_session);
    assert_eq!(settings.default_camera, None);
    assert_eq!(settings.preferred_quality, PreferredQuality::Automatic);
    assert_eq!(settings.preferred_frame_rate, None);
    assert_eq!(settings.disconnect_behavior, DisconnectBehavior::BlackFrame);
    assert_eq!(settings.virtual_camera_name, "Camux Camera");
    assert_eq!(settings.hardware_acceleration, HardwareAcceleration::Automatic);
    let mut reset = AppSettings::default();
    assert!(reset.validate().is_ok());
    assert_eq!(reset.virtual_camera_name, "Camux Camera");
}

#[test]
fn validation_reports_each_name_problem() {
    let mut empty = settings_named(" \t ");
    assert_eq!(empty.validate().unwrap_err(), "Virtual camera name cannot be empty");
    assert_eq!(empty.virtual_camera_name, "");

    let mut long = settings_named(&"x".repeat(65));
    assert_eq!(
        long.validate().unwrap_err(),
        "Virtual camera name cannot be longer than 64 characters"
    );
    let mut sixty_four = settings_named(&"é".repeat(64));
    assert!(sixty_four.validate().is_ok());

    let mut control = settings_named("Cam\u{7}ux");
    assert_eq!(
        control.validate().unwrap_err(),
        "Virtual camera name cannot contain control characters"
    );
}

#[test]
fn validation_checks_the_frame_rate_range() {
    for (rate, valid) in [
        (1.0f64, true),
        (30.0, true),
        (240.0, true),
        (0.5, false),
        (240.5, false),
        (-30.0, false),
        (f64::NAN, false),
        (f64::INFINITY, false),
    ] {
        let mut settings = AppSettings {
            preferred_frame_rate: Some(rate.to_bits()),
            ..AppSettings::default()
        };
        let result = settings.validate();
        assert_eq!(result.is_ok(), valid, "rate {rate}");
        if !valid {
            assert_eq!(
                result.unwrap_err(),
                "Preferred frame rate must be between 1 and 240 fps"
            );
        }
    }
}

#[test]
fn validation_clears_an_empty_default_camera_and_is_idempotent() {
    let mut settings = AppSettings {
        default_camera: Some(String::new()),
        virtual_camera_name: "  Studio  ".to_owned(),
        ..AppSettings::default()
    };
    settings.validate().unwrap();
    assert_eq!(settings.default_camera, None);
    assert_eq!(settings.virtual_camera_name, "Studio");
    settings.validate().unwrap();
    assert_eq!(settings.virtual_camera_name, "Studio");

    let mut chosen = AppSettings {
        default_camera: Some("/dev/video0".to_owned()),
        ..AppSettings::default()
    };
    chosen.validate().unwrap();
    assert_eq!(chosen.default_camera.as_deref(), Some("/dev/video0"));
}

#[test]
fn launch_entries_quote_the_executable() {
    assert_eq!(
        camux::settings::escape_xml("'\"&<>"),
        "&apos;&quot;&amp;&lt;&gt;"
    );
    assert_eq!(
        camux::settings::quote_desktop_exec("C:\\a \"b\""),
        "\"C:\\\\a \\\"b\\\"\""
    );
    let plist = launch_agent_plist("/Applications/A&B.app");
    assert!(plist.contains("<array><string>/Applications/A&amp;B.app</string></array>"));
    assert!(plist.starts_with("<?xml version=\"1.0\""));
    assert_eq!(
        desktop_entry("/opt/Camux App/camux"),
        "[Desktop Entry]\nType=Application\nName=Camux\nComment=Webcam splitter\nExec=\"/opt/Camux App/camux\"\nTerminal=false\nX-GNOME-Autostart-enabled=true\n"
    );
}

#[test]
fn driver_installation_errors_name_the_reason() {
    assert_eq!(
        driver_install_error(b"  \n"),
        "Could not install the Camux multi-reader driver; administrator access may be required"
    );
    assert_eq!(
        driver_install_error(b" dkms failed \n"),
        "Could not install the Camux multi-reader driver: dkms failed"
    );
    assert_eq!(
        driver_install_error(b"bad \xff byte\n"),
        "Could not install the Camux multi-reader driver: bad \u{FFFD} byte"
    );
    assert_eq!(
        install_failure_message(" dkms failed \n"),
        "Could not install the Camux multi-reader driver: dkms failed"
    );
}

#[test]
fn linux_virtual_camera_status_covers_each_state() {
    let names = vec!["Dummy video device\n".to_owned(), "  camux camera \n".to_owned()];
    let ready = linux_virtual_camera_status("Camux Camera", &names, "0.15.4-camux1\n", true);
    assert_eq!(ready.state, VirtualCameraState::Ready);
    assert_eq!(ready.detail, "Camux Camera is available to multiple apps at the same time");

    let old = linux_virtual_camera_status("Camux Camera", &names, "0.12.7", true);
    assert_eq!(old.state, VirtualCameraState::NeedsRepair);
    assert_eq!(
        old.detail,
        "Camux Camera uses a driver that cannot be shared between apps; repair it to install Camux multi-reader support"
    );

    let renamed = vec!["My Camux output".to_owned()];
    let found = linux_virtual_camera_status("Studio", &renamed, "", false);
    assert_eq!(found.state, VirtualCameraState::NeedsRepair);

    let others = vec!["Integrated Camera".to_owned()];
    let loaded = linux_virtual_camera_status("Camux Camera", &others, "", true);
    assert_eq!(loaded.state, VirtualCameraState::NeedsRepair);
    assert_eq!(loaded.detail, "v4l2loopback is loaded, but the Camux camera is unavailable");

    let missing = linux_virtual_camera_status("Camux Camera", &others, "", false);
    assert_eq!(missing.state, VirtualCameraState::NotInstalled);
    assert_eq!(missing.detail, "v4l2loopback is not installed or loaded");
}

#[test]
fn macos_and_unsupported_virtual_camera_status() {
    let ready = macos_virtual_camera_status("Camux Camera", true);
    assert_eq!(ready.state, VirtualCameraState::Ready);
    assert_eq!(ready.detail, "Camux Camera is available to other apps");
    let missing = macos_virtual_camera_status("Camux Camera", false);
    assert_eq!(missing.state, VirtualCameraState::NotInstalled);
    assert_eq!(missing.detail, "The Camux virtual camera is not installed");
    let unsupported = unsupported_virtual_camera_status();
    assert_eq!(unsupported.state, VirtualCameraState::NotInstalled);
    assert_eq!(unsupported.detail, "Virtual cameras are unsupported on this platform");
}

#[test]
fn incomplete_mjpeg_frames_are_rejected() {
    let message = "The camera returned an incomplete MJPEG frame";
    assert_eq!(complete_mjpeg_frame(&[0xff, 0xd8, 0xff], 3).unwrap_err(), message);
    assert_eq!(complete_mjpeg_frame(&[0x00, 0xd8, 0xff, 0xd9], 4).unwrap_err(), message);
    assert_eq!(complete_mjpeg_frame(&[0xff, 0xd8, 1, 2, 3], 5).unwrap_err(), message);
    let buffer = [0xff, 0xd8, 0xff, 0xd9, 7, 0xff, 0xd9, 9];
    assert_eq!(complete_mjpeg_frame(&buffer, 100).unwrap(), &buffer[..7]);
    assert_eq!(complete_mjpeg_frame(&buffer, 6).unwrap(), &buffer[..4]);
}

#[test]
fn mailbox_reports_timeouts_failures_and_new_readers() {
    let mut mailbox = FrameMailbox::default();
    assert!(!mailbox.has_news());
    assert_eq!(
        mailbox.next().unwrap_err(),
        "The camera did not produce another frame within 3 seconds"
    );
    mailbox.publish(&[9, 9]);
    assert!(mailbox.has_news());
    assert_eq!(mailbox.next().unwrap(), vec![9, 9]);
    assert!(mailbox.next().is_err());

    mailbox.reset_reader();
    assert_eq!(mailbox.next().unwrap(), vec![9, 9]);

    mailbox.fail("The camera preview has been closed".to_owned());
    mailbox.publish(&[1]);
    assert_eq!(mailbox.next().unwrap_err(), "The camera preview has been closed");
    mailbox.reset_reader();
    assert_eq!(mailbox.next().unwrap(), vec![1]);

    mailbox.sequence = u64::MAX;
    mailbox.publish(&[2]);
    assert_eq!(mailbox.sequence, 1);
}

#[test]
fn registry_tracks_previews_and_the_single_route() {
    let mut registry = SessionRegistry::new();
    registry.insert_session(1, "/dev/video0".to_owned());
    registry.insert_session(2, "/dev/video2".to_owned());
    assert_eq!(registry.preview_status(1), Ok(()));
    assert_eq!(
        registry.preview_status(7).unwrap_err(),
        "The camera preview is no longer running"
    );
    assert_eq!(registry.routed_session("/dev/video0"), None);

    assert_eq!(registry.plan_route(1), Ok(RoutePlan::Start { previous: None }));
    assert_eq!(registry.finish_route(1, None), (None, Ok(())));
    assert_eq!(registry.plan_route(1), Ok(RoutePlan::AlreadyRouted));
    assert_eq!(registry.routed_session("/dev/video0"), Some(1));
    assert_eq!(registry.routed_session("/dev/video2"), None);

    // The routed session outlives its preview.
    assert_eq!(registry.detach_preview(1), DetachOutcome::Detached);
    assert_eq!(
        registry.preview_status(1).unwrap_err(),
        "The camera preview has been closed"
    );
    registry.attach_preview(1);
    assert_eq!(registry.preview_status(1), Ok(()));
    assert_eq!(registry.detach_preview(1), DetachOutcome::Detached);

    // Routing another session releases and removes the unwatched one.
    assert_eq!(registry.plan_route(2), Ok(RoutePlan::Start { previous: Some(1) }));
    assert_eq!(registry.finish_route(2, Some(1)), (Some(1), Ok(())));
    assert!(!registry.contains(1));
    assert_eq!(registry.current_route(), Some(2));

    // Stopping keeps the previewed session and clears the route.
    assert!(!registry.finish_stop(2));
    assert!(registry.contains(2));
    assert_eq!(registry.current_route(), None);
    assert_eq!(registry.detach_preview(2), DetachOutcome::Removed);
    assert_eq!(registry.detach_preview(2), DetachOutcome::Unknown);
    assert_eq!(
        registry.finish_route(2, None).1.unwrap_err(),
        "The camera stream stopped unexpectedly"
    );
    assert_eq!(
        registry.plan_route(2).unwrap_err(),
        "The camera preview is no longer running"
    );
}

#[test]
fn capture_modes_follow_the_requested_quality() {
    assert_eq!(requested_dimensions(PreferredQuality::Automatic), None);
    assert_eq!(requested_dimensions(PreferredQuality::Hd), Some((1280, 720)));
    assert_eq!(requested_dimensions(PreferredQuality::FullHd), Some((1920, 1080)));
    assert_eq!(requested_dimensions(PreferredQuality::UltraHd), Some((3840, 2160)));

    let range = FrameSizeOffer::Stepwise {
        min_width: 320,
        max_width: 1920,
        min_height: 240,
        max_height: 1080,
    };
    assert_eq!(candidate_dimensions(range, None), Some((1920, 1080)));
    assert_eq!(candidate_dimensions(range, Some((1280, 720))), Some((1280, 720)));
    assert_eq!(candidate_dimensions(range, Some((3840, 2160))), None);
    let fixed = FrameSizeOffer::Discrete { width: 640, height: 480 };
    assert_eq!(candidate_dimensions(fixed, None), Some((640, 480)));
    assert_eq!(candidate_dimensions(fixed, Some((1280, 720))), None);

    let modes = vec![(640, 480), (1920, 1080), (1280, 720), (1920, 1080)];
    assert_eq!(choose_mode(&modes, None, true), Some(1));
    assert_eq!(choose_mode(&modes, Some((1280, 720)), true), Some(2));
    assert_eq!(choose_mode(&modes, Some((1280, 720)), false), Some(1));
    assert_eq!(choose_mode(&Vec::new(), None, true), None);
}

#[test]
fn capture_messages_describe_the_failure() {
    assert_eq!(
        no_mode_message(Some((1920, 1080)), " at 60 fps"),
        "This camera does not expose a native MJPEG mode for 1920×1080 at 60 fps"
    );
    assert_eq!(
        no_mode_message(None, ""),
        "This camera does not expose a native MJPEG mode for an automatic resolution"
    );
    assert_eq!(
        capture_format_message((1920, 1080), (1280, 720), "YUYV"),
        "The camera selected 1280×720 YUYV, not the requested 1920×1080 MJPEG"
    );
    assert_eq!(
        output_format_message((1920, 1080), (640, 480), "MJPG"),
        "The virtual camera selected 640×480 MJPG, not 1920×1080 MJPEG"
    );
    assert!(!negotiated_format_differs((1920, 1080), (1920, 1080), *b"MJPG"));
    assert!(negotiated_format_differs((1920, 1080), (1920, 1080), *b"YUYV"));
    assert!(negotiated_format_differs((1920, 1080), (1280, 720), *b"MJPG"));
    assert_eq!(check_frame_fits(10, 10), Ok(()));
    assert_eq!(
        check_frame_fits(11, 10).unwrap_err(),
        "A 11 byte camera frame exceeds the virtual camera's 10 byte buffer"
    );
    assert!(is_output_candidate(" Studio Cam ", "studio cam\n"));
    assert!(is_output_candidate("Studio", "Camux Camera"));
    assert!(!is_output_candidate("Studio", "Integrated Camera"));
    assert_eq!(
        output_not_ready_message("Camux Camera"),
        "Camux Camera is not ready. Repair the virtual camera in Settings first."
    );
}

#[test]
fn video_node_numbers_fit_in_sixty_four_bits() {
    assert_eq!(video_device_index("video007"), Some(7));
    assert_eq!(video_device_index("video18446744073709551615"), Some(u64::MAX));
    assert_eq!(video_device_index("video18446744073709551616"), None);
    assert_eq!(video_device_index("video+1"), None);
    assert_eq!(video_device_index("Video1"), None);
}

#[test]
fn capability_and_control_flags_are_named_in_order() {
    assert_eq!(
        capability_names(CAP_STREAMING | CAP_VIDEO_CAPTURE | CAP_READ_WRITE),
        vec!["videoCapture", "readWrite", "streaming"]
    );
    assert!(capability_names(0).is_empty());
    assert_eq!(
        control_flag_names(CTRL_SLIDER | CTRL_READ_ONLY),
        vec!["readOnly", "slider"]
    );
}

#[test]
fn device_names_and_codes_read_as_the_interface_shows_them() {
    assert_eq!(non_empty_trimmed("  HD Webcam \n").as_deref(), Some("HD Webcam"));
    assert_eq!(non_empty_trimmed(" \t"), None);
    assert_eq!(identity_part("  USB\tCamera   IR "), "usb camera ir");
    assert_eq!(camera_name("  Integrated  ", "/dev/video0"), "Integrated");
    assert_eq!(camera_name("", "/dev/video3"), "video3");
    assert_eq!(camera_name("", "/"), "/");
    assert_eq!(driver_version(6, 8, 12), "6.8.12");
    assert_eq!(fourcc_string(*b"MJPG"), "MJPG");
    assert_eq!(fourcc_string([0xff, 0x00, 0x00, 0x01]), "0x010000ff");
}

#[test]
fn process_names_are_readable() {
    assert_eq!(
        executable_name(b"/usr/lib/firefox/firefox.bin\0--new-window"),
        Some("firefox.bin".to_owned())
    );
    assert_eq!(executable_name(b"zoom"), Some("zoom".to_owned()));
    assert_eq!(executable_name(&[0xff, 0xfe, 0]), None);
    assert_eq!(process_display_name(Some("firefox.bin".to_owned()), 5), "Firefox");
    assert_eq!(process_display_name(Some("obs.exe.bin".to_owned()), 5), "Obs");
    assert_eq!(process_display_name(Some("ßtool".to_owned()), 5), "SStool");
    assert_eq!(process_display_name(Some(".bin".to_owned()), 7), "process 7");
    assert_eq!(process_display_name(None, 42), "Process 42");
}

#[test]
fn controls_are_checked_before_they_change() {
    let controls = vec![
        ControlDescription {
            id: 1,
            name: "Brightness".to_owned(),
            control_type: ControlType::Integer,
            flag_bits: CTRL_SLIDER,
        },
        ControlDescription {
            id: 2,
            name: "Auto Exposure".to_owned(),
            control_type: ControlType::Boolean,
            flag_bits: 0,
        },
        ControlDescription {
            id: 3,
            name: "Focus".to_owned(),
            control_type: ControlType::Integer,
            flag_bits: CTRL_INACTIVE,
        },
        ControlDescription {
            id: 4,
            name: "Reset".to_owned(),
            control_type: ControlType::Button,
            flag_bits: 0,
        },
        ControlDescription {
            id: 5,
            name: "Label".to_owned(),
            control_type: ControlType::String,
            flag_bits: 0,
        },
        ControlDescription {
            id: 6,
            name: "Camera Controls".to_owned(),
            control_type: ControlType::CtrlClass,
            flag_bits: 0,
        },
    ];
    let number = |v: i64| ControlInput { as_bool: None, as_i64: Some(v), as_str: None };
    let flag = |b: bool| ControlInput { as_bool: Some(b), as_i64: None, as_str: None };
    let text = |t: &str| ControlInput { as_bool: None, as_i64: None, as_str: Some(t.to_owned()) };

    assert!(matches!(control_update(&controls, 1, number(128)), Ok(ControlValue::Integer(128))));
    assert_eq!(control_update(&controls, 1, flag(true)).unwrap_err(), "Brightness expects an integer");
    assert!(matches!(control_update(&controls, 2, flag(false)), Ok(ControlValue::Boolean(false))));
    assert_eq!(control_update(&controls, 2, number(1)).unwrap_err(), "Auto Exposure expects a boolean");
    assert_eq!(control_update(&controls, 3, number(1)).unwrap_err(), "Focus cannot be changed");
    assert!(matches!(control_update(&controls, 4, flag(true)), Ok(ControlValue::Nothing)));
    assert!(matches!(control_update(&controls, 5, text("hi")), Ok(ControlValue::Text(t)) if t == "hi"));
    assert_eq!(control_update(&controls, 5, number(1)).unwrap_err(), "Label expects text");
    assert_eq!(
        control_update(&controls, 6, number(1)).unwrap_err(),
        "Camera Controls is not an editable control"
    );
    assert_eq!(
        control_update(&controls, 99, number(1)).unwrap_err(),
        "Camera control 99 was not found"
    );
    let read_only = vec![ControlDescription {
        id: 7,
        name: "Gain".to_owned(),
        control_type: ControlType::Integer,
        flag_bits: CTRL_READ_ONLY,
    }];
    assert_eq!(control_update(&read_only, 7, number(1)).unwrap_err(), "Gain cannot be changed");
}

#[test]
fn structured_devices_are_listed_by_name_then_node() {
    let device = |index: u64, name: &str, bus: &str| DiscoveredDevice {
        camera: index,
        name: name.to_owned(),
        bus: bus.to_owned(),
        index,
    };
    let listed = structure_devices(vec![
        device(6, "webcam", "usb-2"),
        device(3, "Webcam", "usb-3"),
        device(1, "Integrated Camera", "pci-1"),
        device(2, "integrated  camera", "PCI-1"),
        device(5, "Capture", ""),
        device(4, "Capture", ""),
    ]);
    assert_eq!(listed, vec![4, 5, 1, 3, 6]);
}

#[test]
fn macos_devices_read_as_the_interface_shows_them() {
    assert_eq!(macos::fourcc_string(u32::from_be_bytes(*b"avc1")), "avc1");
    assert_eq!(macos::fourcc_string(u32::from_be_bytes(*b"usb ")), "usb ");
    assert_eq!(macos::fourcc_string(1), "0x00000001");
    assert_eq!(macos::non_empty(" FaceTime "), Some("FaceTime".to_owned()));
    assert_eq!(macos::non_empty(""), None);
    assert_eq!(camera_position(2), CameraPosition::Front);
    assert_eq!(camera_position(1), CameraPosition::Back);
    assert_eq!(camera_position(0), CameraPosition::Unspecified);
    assert_eq!(
        camera_capabilities(false, true, false, true, true),
        vec!["videoCapture", "streaming", "focus", "whiteBalance", "zoom"]
    );
    assert_eq!(
        macos::MacOSBackend::new().set_control_error(),
        "Camera controls are not available on macOS yet"
    );
}

#[test]
fn availability_reads_the_first_matching_device() {
    let devices = vec![
        DeviceState { id: "a".to_owned(), connected: true, in_use: Some(true) },
        DeviceState { id: "b".to_owned(), connected: true, in_use: None },
        DeviceState { id: "a".to_owned(), connected: false, in_use: Some(false) },
    ];
    let ids = vec!["a".to_owned(), "b".to_owned(), "c".to_owned()];
    let list = availability(&ids, &devices);
    assert_eq!(list.len(), 3);
    assert!(list[0].connected && list[0].in_use);
    assert!(list[1].connected && !list[1].in_use);
    assert!(!list[2].connected && !list[2].in_use);
    assert_eq!(list[2].id, "c");

    let unsupported = UnsupportedBackend::new();
    let none = unsupported.availability(&ids).unwrap();
    assert_eq!(none.len(), 3);
    assert!(none.iter().all(|entry| !entry.connected && !entry.in_use && entry.in_use_by.is_empty()));
    assert_eq!(none[1].id, "b");
    assert_eq!(
        unsupported.set_control_error(),
        "Camera controls are unsupported on this platform"
    );
}

#[test]
fn table_cells_fit_on_one_line() {
    assert_eq!(sanitize_cell("  a\n\tb  c "), "a b c");
    let mut out = String::new();
    write_row(&mut out, ["攝影機", "x"], [8, 3]);
    assert_eq!(out, "| 攝影機   | x   |\n");
}

fn xml_unescape(text: &str) -> String {
    let mut out = String::new();
    let mut rest = text;
    while let Some(c) = rest.chars().next() {
        let entity = [("&amp;", '&'), ("&lt;", '<'), ("&gt;", '>'), ("&quot;", '"'), ("&apos;", '\'')]
            .into_iter()
            .find(|(entity, _)| rest.starts_with(entity));
        match entity {
            Some((entity, decoded)) => {
                out.push(decoded);
                rest = &rest[entity.len()..];
            }
            None => {
                out.push(c);
                rest = &rest[c.len_utf8()..];
            }
        }
    }
    out
}

#[test]
fn escaped_xml_reads_back_as_the_original_text() {
    assert_eq!(escape_xml("&lt;\"'"), "&amp;lt;&quot;&apos;");
    for value in ["", "plain", "&lt;\"'", "a&&b<<c>>", "&amp;", "Ünïcode & 'quotes'"] {
        let escaped = escape_xml(value);
        assert!(!escaped.contains(['<', '>', '"', '\'']));
        for (k, _) in escaped.match_indices('&') {
            let rest = &escaped[k..];
            assert!(["&amp;", "&lt;", "&gt;", "&quot;", "&apos;"]
                .iter()
                .any(|entity| rest.starts_with(entity)));
        }
        assert_eq!(xml_unescape(&escaped), value);
    }
}

#[test]
fn replacing_settings_switches_launch_at_login_and_rolls_back() {
    assert_eq!(replace_step(false, true, ReplaceEvent::Started), ReplaceAction::Validate);
    assert_eq!(
        replace_step(false, true, ReplaceEvent::Validated { succeeded: false }),
        ReplaceAction::Fail
    );
    assert_eq!(
        replace_step(false, true, ReplaceEvent::Validated { succeeded: true }),
        ReplaceAction::ConfigureLaunchAtLogin(true)
    );
    assert_eq!(
        replace_step(true, true, ReplaceEvent::Validated { succeeded: true }),
        ReplaceAction::WriteSettings
    );
    assert_eq!(
        replace_step(false, true, ReplaceEvent::LaunchAtLoginConfigured { succeeded: true }),
        ReplaceAction::WriteSettings
    );
    assert_eq!(
        replace_step(false, true, ReplaceEvent::LaunchAtLoginConfigured { succeeded: false }),
        ReplaceAction::Fail
    );
    assert_eq!(
        replace_step(false, true, ReplaceEvent::SettingsWritten { succeeded: true }),
        ReplaceAction::Commit
    );
    assert_eq!(
        replace_step(false, true, ReplaceEvent::SettingsWritten { succeeded: false }),
        ReplaceAction::RestoreLaunchAtLogin(false)
    );
    assert_eq!(
        replace_step(true, true, ReplaceEvent::SettingsWritten { succeeded: false }),
        ReplaceAction::Fail
    );
    assert_eq!(
        replace_step(false, true, ReplaceEvent::LaunchAtLoginRestored),
        ReplaceAction::Fail
    );
}

fn replace_run(previous: bool, next: bool, valid: bool, configured: bool, written: bool) -> Vec<ReplaceAction> {
    let mut run = Vec::new();
    let mut event = ReplaceEvent::Started;
    loop {
        let action = replace_step(previous, next, event);
        run.push(action);
        event = match action {
            ReplaceAction::Validate => ReplaceEvent::Validated { succeeded: valid },
            ReplaceAction::ConfigureLaunchAtLogin(_) => ReplaceEvent::LaunchAtLoginConfigured { succeeded: configured },
            ReplaceAction::WriteSettings => ReplaceEvent::SettingsWritten { succeeded: written },
            ReplaceAction::RestoreLaunchAtLogin(_) => ReplaceEvent::LaunchAtLoginRestored,
            ReplaceAction::Commit | ReplaceAction::Fail => return run,
        };
    }
}

#[test]
fn replacement_runs_keep_settings_only_after_a_successful_write() {
    assert_eq!(replace_run(false, true, false, true, true), vec![ReplaceAction::Validate, ReplaceAction::Fail]);
    assert_eq!(replace_run(true, true, true, false, true), vec![ReplaceAction::Validate, ReplaceAction::WriteSettings, ReplaceAction::Commit]);
    assert_eq!(replace_run(true, true, true, true, false), vec![ReplaceAction::Validate, ReplaceAction::WriteSettings, ReplaceAction::Fail]);
    assert_eq!(
        replace_run(false, true, true, false, true),
        vec![ReplaceAction::Validate, ReplaceAction::ConfigureLaunchAtLogin(true), ReplaceAction::Fail]
    );
    assert_eq!(
        replace_run(false, true, true, true, true),
        vec![ReplaceAction::Validate, ReplaceAction::ConfigureLaunchAtLogin(true), ReplaceAction::WriteSettings, ReplaceAction::Commit]
    );
    assert_eq!(
        replace_run(true, false, true, true, false),
        vec![ReplaceAction::Validate, ReplaceAction::ConfigureLaunchAtLogin(false), ReplaceAction::WriteSettings, ReplaceAction::RestoreLaunchAtLogin(true), ReplaceAction::Fail]
    );
}

#[test]
fn probed_nodes_are_listed_unless_they_cannot_capture_or_are_virtual() {
    assert_eq!(
        listed_node_name(CAP_VIDEO_CAPTURE, "uvcvideo", "  Webcam ", "usb-1", "/dev/video0"),
        Some("Webcam".to_owned())
    );
    assert_eq!(
        listed_node_name(CAP_VIDEO_CAPTURE, "uvcvideo", "", "usb-1", "/dev/video4"),
        Some("video4".to_owned())
    );
    assert_eq!(
        listed_node_name(CAP_STREAMING, "uvcvideo", "Webcam", "usb-1", "/dev/video0"),
        None
    );
    assert_eq!(
        listed_node_name(CAP_VIDEO_CAPTURE, "v4l2 loopback", "Camux", "platform:v4l2loopback-000", "/dev/video9"),
        None
    );
}

#[test]
fn devices_with_a_blank_bus_are_all_kept() {
    let device = |index: u64, name: &str, bus: &str| DiscoveredDevice {
        camera: index,
        name: name.to_owned(),
        bus: bus.to_owned(),
        index,
    };
    let listed = structure_devices(vec![
        device(2, "Capture", " \t"),
        device(1, "Capture", ""),
        device(3, "capture", "   "),
    ]);
    assert_eq!(listed, vec![1, 2, 3]);
}

#[test]
fn routing_while_routed_leaves_one_route_and_stopping_leaves_none() {
    let mut registry = SessionRegistry::new();
    registry.insert_session(1, "/dev/video0".to_owned());
    registry.insert_session(2, "/dev/video2".to_owned());
    registry.insert_session(3, "/dev/video4".to_owned());
    assert_eq!(registry.finish_route(1, None), (None, Ok(())));

    // The previous route keeps its preview and stops feeding the virtual camera.
    assert_eq!(registry.plan_route(2), Ok(RoutePlan::Start { previous: Some(1) }));
    assert_eq!(registry.finish_route(2, Some(1)), (None, Ok(())));
    assert_eq!(registry.plan_route(1), Ok(RoutePlan::Start { previous: Some(2) }));
    assert_eq!(registry.plan_route(2), Ok(RoutePlan::AlreadyRouted));
    assert_eq!(registry.routed_session("/dev/video2"), Some(2));
    assert_eq!(registry.routed_session("/dev/video0"), None);

    // A route whose preview is gone is removed when the next one starts.
    assert_eq!(registry.detach_preview(2), DetachOutcome::Detached);
    assert_eq!(registry.plan_route(3), Ok(RoutePlan::Start { previous: Some(2) }));
    assert_eq!(registry.finish_route(3, Some(2)), (Some(2), Ok(())));
    assert!(!registry.contains(2));
    assert_eq!(registry.current_route(), Some(3));

    // Stopping a route whose preview is gone removes it.
    assert_eq!(registry.detach_preview(3), DetachOutcome::Detached);
    assert!(registry.finish_stop(3));
    assert!(!registry.contains(3));
    assert_eq!(registry.current_route(), None);
    assert_eq!(registry.plan_route(1), Ok(RoutePlan::Start { previous: None }));
}

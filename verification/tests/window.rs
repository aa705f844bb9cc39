use remotedesk::ui::{overlay, AppState, PanelInput, RemotedeskApp, Screen, ERROR_NANOS};

fn connected() -> AppState {
    AppState::Connected { peer_ip: "192.168.1.1".into(), width: 1920, height: 1080 }
}

fn app_with(state: AppState, host: &str) -> RemotedeskApp {
    let mut app = RemotedeskApp::new(None);
    app.set_host_input(host.into());
    app.set_state(state, 0);
    app
}

#[test]
fn test_ip_validation() {
    assert!(RemotedeskApp::validate_ip("192.168.1.1"));
    assert!(RemotedeskApp::validate_ip("10.0.0.1"));
    assert!(RemotedeskApp::validate_ip("127.0.0.1"));
    assert!(!RemotedeskApp::validate_ip(""));
    assert!(!RemotedeskApp::validate_ip("hello"));
    assert!(!RemotedeskApp::validate_ip("192.168.1"));
    assert!(!RemotedeskApp::validate_ip("256.0.0.1"));
}

#[test]
fn test_state_transitions() {
    // Verify states exist and can be cloned/compared
    let states = vec![
        AppState::Idle,
        AppState::Listening,
        AppState::Connecting,
        AppState::Connected {
            peer_ip: "192.168.1.1".into(),
            width: 1920,
            height: 1080,
        },
        AppState::Error("test".into()),
    ];

    for state in &states {
        let cloned = state.clone();
        assert_eq!(state, &cloned);
    }
}

#[test]
fn addresses_are_exact() {
    for good in ["0.0.0.0", "255.255.255.255", "1.22.133.0", "9.99.249.250"] {
        assert!(RemotedeskApp::validate_ip(good), "{good}");
    }
    for bad in [
        "1.2.3.4 ", " 1.2.3.4", "1.2.3.4.", ".1.2.3.4", "1..3.4", "1.2.3.4.5", "01.2.3.4",
        "1.2.3.00", "1.2.3.1000", "1.2.3.-4", "1.2.3.+4", "1,2,3,4", "1.2.3.٤", "999.1.1.1",
        "0x1.2.3.4", "...", "1.2.3.",
    ] {
        assert!(!RemotedeskApp::validate_ip(bad), "{bad}");
    }
}

#[test]
fn addresses_are_what_the_standard_library_parses() {
    for a in [0u32, 1, 9, 10, 99, 100, 199, 255, 256, 300] {
        for tail in ["0.0.1", "1.2", "255.255.255", "07.1.1"] {
            let text = format!("{a}.{tail}");
            let parsed = text.parse::<core::net::Ipv4Addr>().is_ok();
            assert_eq!(RemotedeskApp::validate_ip(&text), parsed, "{text}");
        }
    }
}

#[test]
fn an_application_starts_idle() {
    let mut app = RemotedeskApp::new(Some("192.168.1.5".into()));
    assert_eq!(app.state(), &AppState::Idle);
    assert_eq!(app.local_ip(), "192.168.1.5");
    assert_eq!(app.host_input(), "");
    assert!(app.update(vec![], 0).upload.is_none());
    assert_eq!(RemotedeskApp::new(None).local_ip(), "desconocida");
}

#[test]
fn connecting_needs_an_address_and_no_connection() {
    for (state, free) in [
        (AppState::Idle, true),
        (AppState::Listening, true),
        (AppState::Connecting, false),
        (connected(), false),
        (AppState::Error("x".into()), true),
    ] {
        let app = app_with(state.clone(), "192.168.1.100");
        assert_eq!(app.editable(), free);
        assert_eq!(app.can_connect(), free);
        let app = app_with(state, "192.168.1.");
        assert_eq!(app.editable(), free);
        assert!(!app.can_connect());
    }
}

#[test]
fn enter_or_a_click_connects() {
    for (input, connects) in [
        (PanelInput::AddressField { lost_focus: true, enter: true }, true),
        (PanelInput::AddressField { lost_focus: true, enter: false }, false),
        (PanelInput::AddressField { lost_focus: false, enter: true }, false),
        (PanelInput::ConnectButton { clicked: true }, true),
        (PanelInput::ConnectButton { clicked: false }, false),
    ] {
        let mut app = app_with(AppState::Idle, "10.0.0.1");
        let can_connect = app.can_connect();
        assert_eq!(app.panel_input(can_connect, input), connects);
        assert_eq!(app.state() == &AppState::Connecting, connects);
        assert_eq!(app.host_input(), "10.0.0.1");

        let mut app = app_with(AppState::Idle, "10.0.0");
        let can_connect = app.can_connect();
        assert!(!app.panel_input(can_connect, input));
        assert_eq!(app.state(), &AppState::Idle);

        let mut app = app_with(connected(), "10.0.0.1");
        let can_connect = app.can_connect();
        assert!(!app.panel_input(can_connect, input));
        assert_eq!(app.state(), &connected());
    }
}

/// An application that is connected to a desktop of this size.
fn watching(width: u32, height: u32) -> RemotedeskApp {
    let peer_ip = "10.0.0.9".to_string();
    app_with(AppState::Connected { peer_ip, width, height }, "")
}

#[test]
fn the_last_frame_counts() {
    let red = vec![255, 0, 0, 255];
    let blue = vec![0, 0, 255, 255];
    let mut app = watching(1, 1);
    let texture = app.update(vec![red.clone(), blue.clone()], 0).upload.unwrap();
    assert_eq!(texture.pixels, blue);

    let mut in_batches = watching(1, 1);
    in_batches.poll_frames(vec![red.clone()]);
    in_batches.poll_frames(vec![]);
    in_batches.poll_frames(vec![blue.clone()]);
    let mut at_once = watching(1, 1);
    at_once.poll_frames(vec![red, blue]);
    assert_eq!(
        in_batches.update(vec![], 0).upload.unwrap().pixels,
        at_once.update(vec![], 0).upload.unwrap().pixels
    );
}

#[test]
fn a_frame_is_uploaded_once() {
    let mut app = watching(1, 1);
    assert!(app.update(vec![], 0).upload.is_none());
    assert!(app.update(vec![vec![0; 4]], 1).upload.is_some());
    assert!(app.update(vec![], 2).upload.is_none());
    // Neither an empty frame nor one of another size is uploaded.
    assert!(app.update(vec![vec![]], 3).upload.is_none());
    assert!(app.update(vec![vec![0; 8]], 4).upload.is_none());
    assert!(app.update(vec![vec![0; 4]], 5).upload.is_some());
}

#[test]
fn a_connected_application_shows_frames() {
    let frame: Vec<u8> = vec![10, 20, 30, 255, 40, 50, 60, 255];
    let mut app = watching(2, 1);
    let drawing = app.update(vec![frame.clone()], 7);
    let texture = drawing.upload.unwrap();
    assert_eq!((texture.width, texture.height), (2, 1));
    assert_eq!(texture.pixels, frame);
    assert!(matches!(drawing.screen, Screen::Fullscreen { width: 2, height: 1, .. }));
    assert!(matches!(app.state(), AppState::Connected { width: 2, height: 1, .. }));

    // A new connection has a new size.
    let peer_ip = "10.0.0.9".to_string();
    app.set_state(AppState::Connected { peer_ip, width: 1, height: 1 }, 8);
    assert!(app.update(vec![frame], 9).upload.is_none());
    let texture = app.update(vec![vec![1, 2, 3, 255]], 10).upload.unwrap();
    assert_eq!((texture.width, texture.height), (1, 1));
}

#[test]
fn the_state_decides_what_is_shown() {
    for state in [AppState::Idle, AppState::Listening, AppState::Connecting] {
        let mut app = app_with(state, "");
        assert!(matches!(app.update(vec![], 0).screen, Screen::Panel));
    }
    match app_with(connected(), "").update(vec![], 0).screen {
        Screen::Fullscreen { peer_ip, width, height } => {
            assert_eq!((peer_ip.as_str(), width, height), ("192.168.1.1", 1920, 1080))
        }
        _ => panic!("not the remote desktop"),
    }
    match app_with(AppState::Error("boom".into()), "").update(vec![], 0).screen {
        Screen::PanelWithError(msg) => assert_eq!(msg, "boom"),
        _ => panic!("not the error"),
    }
}

#[test]
fn errors_time_out() {
    let boom = AppState::Error("boom".into());
    let mut app = RemotedeskApp::new(None);
    app.set_state(boom.clone(), 10);
    app.update(vec![], 5);
    assert_eq!(app.state(), &boom);
    let drawing = app.update(vec![vec![1]], 9 + ERROR_NANOS);
    assert_eq!(app.state(), &boom);
    assert!(matches!(drawing.screen, Screen::PanelWithError(_)));
    let drawing = app.update(vec![], 4_000_000_010);
    assert_eq!(app.state(), &AppState::Idle);
    assert!(matches!(drawing.screen, Screen::Panel));

    // A new error has its own time.
    app.set_state(boom.clone(), 100);
    app.set_state(AppState::Error("again".into()), 200);
    app.update(vec![], 100 + ERROR_NANOS);
    assert_eq!(app.state(), &AppState::Error("again".into()));
    app.update(vec![], 200 + ERROR_NANOS);
    assert_eq!(app.state(), &AppState::Idle);

    // An error that the user leaves does not end what comes then.
    app.set_host_input("10.0.0.1".into());
    app.set_state(boom, 0);
    app.try_connect();
    app.update(vec![], 10 * ERROR_NANOS);
    assert_eq!(app.state(), &AppState::Connecting);
}

#[test]
fn other_states_stay() {
    for state in [AppState::Idle, AppState::Listening, AppState::Connecting, connected()] {
        let mut app = app_with(state.clone(), "");
        app.update(vec![vec![1, 2]], 100 * ERROR_NANOS);
        assert_eq!(app.state(), &state);
    }
}

#[test]
fn the_panel_has_a_status_line() {
    let idle = AppState::Idle.status().unwrap();
    assert_eq!((idle.spinner, idle.text), (false, "● Listo"));
    let listening = AppState::Listening.status().unwrap();
    assert_eq!((listening.spinner, listening.text), (false, "● Esperando conexión entrante"));
    let connecting = AppState::Connecting.status().unwrap();
    assert_eq!((connecting.spinner, connecting.text), (true, "Conectando..."));
    assert_eq!(connected().status(), None);
    assert_eq!(AppState::Error("x".into()).status(), None);
}

#[test]
fn the_overlay_names_peer_and_resolution() {
    assert_eq!(
        overlay("192.168.1.1", 1920, 1080),
        ("● 192.168.1.1".to_string(), "1920x1080".to_string())
    );
    assert_eq!(overlay("", 0, u32::MAX).1, "0x4294967295");
}

#[test]
fn textures_keep_opaque_pixels() {
    let mut app = watching(2, 2);
    app.poll_frames(vec![vec![10, 20, 30, 255, 40, 50, 60, 0, 200, 100, 50, 128, 1, 2, 3, 255]]);
    let (width, height, frame) = app.newest_frame();
    assert_eq!((width, height, frame.len()), (2, 2, 16));
    assert_eq!(&frame[8..12], &[200, 100, 50, 128]);
    let texture = app.upload_texture();
    assert_eq!((texture.width, texture.height), (2, 2));
    let pixels = texture.pixels;
    assert_eq!(pixels.len(), 16);
    assert_eq!(&pixels[0..8], &[10, 20, 30, 255, 0, 0, 0, 0]);
    assert_eq!(pixels[11], 128);
    assert!(pixels[8] < 200 && pixels[9] < 100 && pixels[10] < 50);
    assert_eq!(&pixels[12..16], &[1, 2, 3, 255]);
    // A colour that is not in a pixel stays out of it.
    app.poll_frames(vec![vec![0, 200, 0, 128, 0, 0, 0, 1, 0, 0, 9, 254, 0, 0, 0, 77]]);
    let pixels = app.upload_texture().pixels;
    assert_eq!((pixels[0], pixels[2], pixels[3]), (0, 0, 128));
    assert_eq!(&pixels[4..10], &[0, 0, 0, 1, 0, 0]);
    assert_eq!(&pixels[12..16], &[0, 0, 0, 77]);
}

use gnome_session_restore::config::{parse_confidence_micros, valid_confidence_value};
use gnome_session_restore::index::DesktopIndex;
use gnome_session_restore::shell::{
    ExtensionState, ExtensionType, SetGeomTemplate, WindowGeom,
};

#[test]
fn confidence_in_range_is_accepted() {
    for s in ["0", "1", "0.8", "0.6", "1.0", "0.0", "1.000", "+0.5", "-0.0", ".5", "0."] {
        assert!(valid_confidence_value(s).is_ok(), "{}", s);
    }
}

#[test]
fn confidence_out_of_range_is_rejected() {
    for s in ["1.5", "2", "-0.5", "1.000001", "10", "-1"] {
        assert!(valid_confidence_value(s).is_err(), "{}", s);
    }
}

#[test]
fn malformed_confidence_is_rejected() {
    for s in ["", "abc", ".", "0.5.5", "0..5", "+", "-", "0x1", "1,5", " 0.5"] {
        assert!(valid_confidence_value(s).is_err(), "{}", s);
    }
}

#[test]
fn confidence_parses_to_micros() {
    assert_eq!(parse_confidence_micros("0.8"), Some(800000));
    assert_eq!(parse_confidence_micros("0.6"), Some(600000));
    assert_eq!(parse_confidence_micros("1"), Some(1000000));
    assert_eq!(parse_confidence_micros("1.0"), Some(1000000));
    assert_eq!(parse_confidence_micros("0"), Some(0));
    assert_eq!(parse_confidence_micros("-0.0"), Some(0));
    assert_eq!(parse_confidence_micros("0.123456789"), Some(123456));
    assert_eq!(parse_confidence_micros("0.25"), Some(250000));
    assert_eq!(parse_confidence_micros("1.5"), None);
}

#[test]
fn geometry_template_carries_fields_over() {
    let g = WindowGeom { x: 10, y: 20, width: 800, height: 600, minimized: true };
    let t = SetGeomTemplate::from_geom("org.gnome.Terminal".to_string(), g);
    assert_eq!(t.window_class, "org.gnome.Terminal".to_string());
    assert_eq!(t.x, 10);
    assert_eq!(t.y, 20);
    assert_eq!(t.width, 800);
    assert_eq!(t.height, 600);
    assert!(t.minimized);
}

#[test]
fn extension_state_codes_decode() {
    assert_eq!(ExtensionState::from_code(1), Some(ExtensionState::Enabled));
    assert_eq!(ExtensionState::from_code(2), Some(ExtensionState::Disabled));
    assert_eq!(ExtensionState::from_code(3), Some(ExtensionState::Error));
    assert_eq!(ExtensionState::from_code(4), Some(ExtensionState::OutOfDate));
    assert_eq!(ExtensionState::from_code(5), Some(ExtensionState::Downloading));
    assert_eq!(ExtensionState::from_code(6), Some(ExtensionState::Initialized));
    assert_eq!(ExtensionState::from_code(99), Some(ExtensionState::Uninstalled));
    assert_eq!(ExtensionState::from_code(7), None);
    assert_eq!(ExtensionState::from_code(0), None);
}

#[test]
fn extension_type_codes_decode() {
    assert_eq!(ExtensionType::from_code(1), Some(ExtensionType::System));
    assert_eq!(ExtensionType::from_code(2), Some(ExtensionType::PerUser));
    assert_eq!(ExtensionType::from_code(3), None);
}

#[test]
fn index_keeps_only_desktop_files() {
    let index = DesktopIndex::new(
        vec!["/usr/share/applications".to_string()],
        vec![
            "/usr/share/applications/a.desktop".to_string(),
            "/usr/share/applications/notes.txt".to_string(),
            "/usr/share/applications/b.desktop".to_string(),
            "/usr/share/applications/desktop".to_string(),
            "/usr/share/applications/.desktop".to_string(),
        ],
    );
    assert_eq!(
        index.files,
        vec![
            "/usr/share/applications/a.desktop".to_string(),
            "/usr/share/applications/b.desktop".to_string(),
        ]
    );
}

use rex::parse::{parse_monitor, parse_report, parse_xrandr, ParseError};
use rex::topology::{Monitor, Topology};

const LAPTOP: &str = "Screen 0: minimum 8 x 8, current 1920 x 1080, maximum 32767 x 32767
eDP1 connected 1920x1080+0+0 (normal left inverted right x axis y axis) 294mm x 165mm
   1920x1080     60.02*+  59.93
   1680x1050     59.95    59.88
   1280x720      60.00    59.99    59.86    59.74
DP1 disconnected (normal left inverted right x axis y axis)
";

fn monitor(name: &str, connected: bool, primary: bool, on: bool, res: Option<&str>) -> Monitor {
    Monitor {
        name: String::from(name),
        connected,
        primary,
        on,
        highest_res: res.map(String::from),
    }
}

#[test]
fn test_parse() {
    let displays = parse_xrandr(LAPTOP).unwrap();
    let mut expected_displays_map = Topology::new();
    expected_displays_map.insert(monitor("DP1", false, false, false, None));
    expected_displays_map.insert(monitor("eDP1", true, false, true, Some("1920x1080")));
    assert_eq!(displays, expected_displays_map);
}

#[test]
fn parsing_twice_gives_equal_topologies() {
    let a = parse_xrandr(LAPTOP).unwrap();
    let b = parse_xrandr(LAPTOP).unwrap();
    assert!(a.same_as(&b));
    assert_eq!(a, b);
}

#[test]
fn primary_moves_indicator_to_fourth_word() {
    let m = parse_monitor(
        "HDMI1 connected primary 1920x1080+0+0 (normal left inverted right x axis y axis)",
        None,
    )
    .unwrap();
    assert!(m.primary);
    assert!(m.on);
    assert!(m.connected);
    assert_eq!(m.name, "HDMI1");
    let off = parse_monitor(
        "HDMI1 connected primary (normal left inverted right x axis y axis)",
        None,
    )
    .unwrap();
    assert!(off.primary);
    assert!(!off.on);
}

#[test]
fn parenthesised_indicator_means_off() {
    let off = parse_monitor("DP1 disconnected (normal left inverted right x axis y axis)", None).unwrap();
    assert!(!off.on);
    assert!(!off.connected);
    assert!(!off.primary);
    let on = parse_monitor("DP2 connected 2560x1440+1920+0 (normal left)", Some(String::from("2560x1440"))).unwrap();
    assert!(on.on);
    assert_eq!(on.highest_res, Some(String::from("2560x1440")));
}

#[test]
fn short_output_line_is_rejected() {
    assert_eq!(parse_monitor("DP1 disconnected", None), Err(ParseError::Malformed));
    assert_eq!(parse_monitor("", None), Err(ParseError::Malformed));
    let text = "Screen 0: minimum 8 x 8\nDP1 disconnected\n";
    assert_eq!(parse_xrandr(text), Err(ParseError::Malformed));
}

#[test]
fn primary_without_indicator_is_rejected() {
    assert_eq!(parse_monitor("eDP1 connected primary", None), Err(ParseError::Malformed));
}

#[test]
fn blank_mode_line_is_rejected() {
    let text = "eDP1 connected 1920x1080+0+0 (normal)\n   \n";
    assert_eq!(parse_xrandr(text), Err(ParseError::Malformed));
}

#[test]
fn empty_report_gives_empty_topology() {
    assert_eq!(parse_xrandr("").unwrap(), Topology::new());
    assert_eq!(parse_xrandr("Screen 0: minimum 8 x 8\n").unwrap(), Topology::new());
}

const MIRRORED: &str = "Screen 0: minimum 8 x 8
HDMI1 disconnected (normal left inverted right x axis y axis)
eDP1 connected 1920x1080+0+0 (normal left inverted right x axis y axis)
   1920x1080     60.02*+
   1280x720      60.00
";

#[test]
fn mode_carries_to_output_above_in_compatible_reading() {
    let t = parse_xrandr(MIRRORED).unwrap();
    assert_eq!(t.get("HDMI1").unwrap().highest_res, Some(String::from("1920x1080")));
    assert_eq!(t.get("eDP1").unwrap().highest_res, Some(String::from("1920x1080")));
}

#[test]
fn mode_does_not_carry_without_carry_over() {
    let t = parse_report(MIRRORED, false).unwrap();
    assert_eq!(t.get("HDMI1").unwrap().highest_res, None);
    assert_eq!(t.get("eDP1").unwrap().highest_res, Some(String::from("1920x1080")));
}

#[test]
fn first_block_wins_on_duplicate_names() {
    let text = "DP1 connected 800x600+0+0 (normal)\n   800x600 60.00\nDP1 disconnected (normal)\n";
    let t = parse_xrandr(text).unwrap();
    let m = t.get("DP1").unwrap();
    assert!(m.connected);
    assert!(m.on);
    assert_eq!(m.highest_res, Some(String::from("800x600")));
    assert!(t.get("DP2").is_none());
}

#[test]
fn tab_indented_line_is_a_mode_line() {
    let text = "eDP1 connected 1366x768+0+0 (normal)\n\t1366x768 60.00*+\n";
    let t = parse_xrandr(text).unwrap();
    assert_eq!(t.get("eDP1").unwrap().highest_res, Some(String::from("1366x768")));
}

#[test]
fn topology_insert_replaces_same_name() {
    let mut t = Topology::new();
    t.insert(monitor("DP1", false, false, false, None));
    t.insert(monitor("DP1", true, true, true, Some("1024x768")));
    let mut u = Topology::new();
    u.insert(monitor("DP1", true, true, true, Some("1024x768")));
    assert_eq!(t, u);
    u.insert(monitor("DP2", false, false, false, None));
    assert_ne!(t, u);
}

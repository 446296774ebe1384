use rex::parse::parse_xrandr;
use rex::rules::{predicate_matches, select_command, Config, Predicate, Setup};
use rex::topology::Topology;

const DOCKED: &str = "Screen 0: minimum 8 x 8, current 3840 x 1080
eDP1 connected primary 1920x1080+0+0 (normal left inverted right x axis y axis) 294mm x 165mm
   1920x1080     60.02*+
   1280x720      60.00
DP1 connected 1920x1080+1920+0 (normal left inverted right x axis y axis) 527mm x 296mm
   2560x1440     59.95 +
   1920x1080     60.00*
HDMI1 disconnected (normal left inverted right x axis y axis)
";

fn pred(name: &str, connected: bool, res: &str) -> Predicate {
    Predicate { name: String::from(name), connected, res: String::from(res) }
}

fn rule(command: &str, predicates: Option<Vec<Predicate>>) -> Setup {
    Setup { command: String::from(command), predicates }
}

fn topo() -> Topology {
    parse_xrandr(DOCKED).unwrap()
}

fn strings(v: &[&str]) -> Vec<String> {
    v.iter().map(|s| String::from(*s)).collect()
}

#[test]
fn first_matching_rule_wins() {
    let cfg = Config {
        sleep_time_ms: None,
        setup: vec![
            rule("--output DP1 --auto --right-of eDP1", Some(vec![pred("DP1", true, "2560x1440")])),
            rule("--output eDP1 --auto", Some(vec![pred("eDP1", true, "1920x1080")])),
        ],
    };
    assert_eq!(
        select_command(&topo(), &cfg),
        strings(&["--output", "DP1", "--auto", "--right-of", "eDP1"])
    );
}

#[test]
fn all_predicates_must_hold() {
    let both = Some(vec![pred("eDP1", true, "1920x1080"), pred("DP1", true, "1920x1080")]);
    assert!(!predicate_matches(&both, &topo()));
    let fixed = Some(vec![pred("eDP1", true, "1920x1080"), pred("DP1", true, "2560x1440")]);
    assert!(predicate_matches(&fixed, &topo()));
}

#[test]
fn unsatisfied_rules_fall_back_to_auto() {
    let empty = Config { sleep_time_ms: None, setup: vec![] };
    assert_eq!(select_command(&topo(), &empty), strings(&["--auto"]));
    let none_apply = Config {
        sleep_time_ms: None,
        setup: vec![rule("--output HDMI1 --auto", Some(vec![pred("HDMI1", true, "1920x1080")]))],
    };
    assert_eq!(select_command(&topo(), &none_apply), strings(&["--auto"]));
}

#[test]
fn rule_without_predicates_always_applies() {
    let cfg = Config {
        sleep_time_ms: None,
        setup: vec![
            rule("--output HDMI1 --auto", Some(vec![pred("HDMI1", true, "1920x1080")])),
            rule("  --output   eDP1 --primary ", None),
        ],
    };
    assert_eq!(select_command(&topo(), &cfg), strings(&["--output", "eDP1", "--primary"]));
    assert!(predicate_matches(&None, &topo()));
    assert!(predicate_matches(&Some(vec![]), &Topology::new()));
}

#[test]
fn predicate_on_output_without_modes_fails() {
    assert!(!predicate_matches(&Some(vec![pred("HDMI1", false, "1920x1080")]), &topo()));
    assert!(!predicate_matches(&Some(vec![pred("VGA1", true, "1920x1080")]), &topo()));
}

#[test]
fn predicate_checks_connection() {
    assert!(!predicate_matches(&Some(vec![pred("eDP1", false, "1920x1080")]), &topo()));
    assert!(predicate_matches(&Some(vec![pred("eDP1", true, "1920x1080")]), &topo()));
}

#[test]
fn sleep_defaults_to_one_second() {
    let cfg = Config { sleep_time_ms: None, setup: vec![] };
    assert_eq!(cfg.sleep_ms(), 1000);
    let cfg = Config { sleep_time_ms: Some(2000), setup: vec![] };
    assert_eq!(cfg.sleep_ms(), 2000);
}

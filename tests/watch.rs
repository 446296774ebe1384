use rex::parse::ParseError;
use rex::rules::{Config, Predicate, Setup};
use rex::watch::{Action, Watcher};

const ALONE: &str = "Screen 0: minimum 8 x 8
eDP1 connected primary 1920x1080+0+0 (normal left inverted right x axis y axis)
   1920x1080     60.02*+
DP1 disconnected (normal left inverted right x axis y axis)
";

const DOCKED: &str = "Screen 0: minimum 8 x 8
eDP1 connected primary 1920x1080+0+0 (normal left inverted right x axis y axis)
   1920x1080     60.02*+
DP1 connected (normal left inverted right x axis y axis)
   2560x1440     59.95 +
";

fn config() -> Config {
    Config {
        sleep_time_ms: Some(500),
        setup: vec![
            Setup {
                command: String::from("--output DP1 --auto --above eDP1"),
                predicates: Some(vec![Predicate {
                    name: String::from("DP1"),
                    connected: true,
                    res: String::from("2560x1440"),
                }]),
            },
            Setup { command: String::from("--output eDP1 --auto --output DP1 --off"), predicates: None },
        ],
    }
}

#[test]
fn unchanged_report_runs_nothing() {
    let cfg = config();
    let mut w = Watcher::new(true);
    match w.observe(ALONE, &cfg).unwrap() {
        Action::Apply { seen, args } => {
            assert!(seen.get("eDP1").unwrap().primary);
            assert_eq!(args, vec!["--output", "eDP1", "--auto", "--output", "DP1", "--off"]);
        },
        other => panic!("expected a command, got {:?}", other),
    }
    w.settle(ALONE).unwrap();
    assert!(matches!(w.observe(ALONE, &cfg), Ok(Action::Steady { announce: true })));
    assert!(matches!(w.observe(ALONE, &cfg), Ok(Action::Steady { announce: false })));
    assert!(matches!(w.observe(ALONE, &cfg), Ok(Action::Steady { announce: false })));
}

#[test]
fn change_after_steady_selects_again() {
    let cfg = config();
    let mut w = Watcher::new(true);
    w.settle(ALONE).unwrap();
    assert!(matches!(w.observe(ALONE, &cfg), Ok(Action::Steady { announce: true })));
    match w.observe(DOCKED, &cfg).unwrap() {
        Action::Apply { args, .. } => {
            assert_eq!(args, vec!["--output", "DP1", "--auto", "--above", "eDP1"]);
        },
        other => panic!("expected a command, got {:?}", other),
    }
    w.settle(DOCKED).unwrap();
    assert!(matches!(w.observe(DOCKED, &cfg), Ok(Action::Steady { announce: true })));
}

#[test]
fn empty_report_is_steady_at_start() {
    let mut w = Watcher::new(false);
    assert!(matches!(w.observe("", &config()), Ok(Action::Steady { announce: true })));
}

#[test]
fn malformed_report_is_an_error() {
    let cfg = config();
    let mut w = Watcher::new(true);
    w.settle(ALONE).unwrap();
    assert!(matches!(w.observe("eDP1 connected\n", &cfg), Err(ParseError::Malformed)));
    assert_eq!(w.settle("eDP1\n"), Err(ParseError::Malformed));
    assert!(matches!(w.observe(ALONE, &cfg), Ok(Action::Steady { announce: true })));
}

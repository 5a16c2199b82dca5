use vtome::placement::{land_on_monitor, primary_index, select_monitor, Fit, MonitorSelector};
use vtome::Error;

#[test]
fn selectors_say_what_they_were_looking_for() {
    assert_eq!(MonitorSelector::Primary.describe(), "the primary monitor");
    assert_eq!(MonitorSelector::Index(2).describe(), "monitor 2");
    assert_eq!(
        MonitorSelector::Name("EPSON".to_string()).describe(),
        "the monitor named \"EPSON\""
    );
    assert_eq!(
        MonitorSelector::ContainingPoint(-1920, 0).describe(),
        "the monitor containing (-1920, 0)"
    );
    assert_eq!(
        MonitorSelector::Name("a \"b\"".to_string()).describe(),
        "the monitor named \"a \\\"b\\\"\""
    );
}

#[test]
fn a_picture_is_contained_unless_told_otherwise() {
    assert_eq!(Fit::default(), Fit::Contain);
}

#[test]
fn the_primary_is_the_one_marked_or_else_the_first() {
    assert_eq!(primary_index(&[false, true, true]), Some(1));
    assert_eq!(primary_index(&[false, false]), Some(0));
    assert_eq!(primary_index(&[]), None);
}

#[test]
fn a_missing_monitor_falls_back_only_when_allowed() {
    let primaries = [false, true];
    assert_eq!(land_on_monitor("monitor 0".to_string(), Some(0), &primaries, false).unwrap(), (0, false));
    assert_eq!(land_on_monitor("monitor 5".to_string(), Some(5), &primaries, true).unwrap(), (1, true));
    assert_eq!(land_on_monitor("x".to_string(), None, &primaries, true).unwrap(), (1, true));

    let Err(Error::NoSuchMonitor { selector, available }) =
        land_on_monitor("monitor 5".to_string(), None, &primaries, false)
    else {
        panic!("no fallback allowed");
    };
    assert_eq!((selector.as_str(), available), ("monitor 5", 2));

    let Err(Error::NoSuchMonitor { available, .. }) =
        land_on_monitor("the primary monitor".to_string(), Some(0), &[], true)
    else {
        panic!("nothing attached");
    };
    assert_eq!(available, 0);
}

#[test]
fn a_monitor_is_found_by_part_of_its_name_in_any_case() {
    let names = vec![
        "Built-in Retina Display".to_string(),
        "DELL U2720Q".to_string(),
        "EPSON Projector".to_string(),
    ];
    let primaries = [true, false, false];
    let by_name = |wanted: &str| {
        select_monitor(&MonitorSelector::Name(wanted.to_string()), &names, &primaries, None)
    };
    assert_eq!(by_name("dell"), Some(1));
    assert_eq!(by_name("EPSON"), Some(2));
    assert_eq!(by_name("retina"), Some(0));
    assert_eq!(by_name("LG"), None);
    assert_eq!(by_name(""), Some(0));

    assert_eq!(select_monitor(&MonitorSelector::Primary, &names, &[false, false, true], None), Some(2));
    assert_eq!(select_monitor(&MonitorSelector::Index(1), &names, &primaries, None), Some(1));
    assert_eq!(select_monitor(&MonitorSelector::Index(3), &names, &primaries, None), None);
    assert_eq!(select_monitor(&MonitorSelector::ContainingPoint(0, 0), &names, &primaries, Some(2)), Some(2));
    assert_eq!(select_monitor(&MonitorSelector::ContainingPoint(0, 0), &names, &primaries, Some(7)), None);
}

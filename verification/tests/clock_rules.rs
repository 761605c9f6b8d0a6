use oziclock::clock::{execute_clock_command, Clock, ClockCollection, ClockCommand};

fn clock(label: &str, is_main: bool) -> Clock {
    Clock {
        label: label.into(),
        time_zone: "UTC".into(),
        color: "#FFFFFF".into(),
        is_main,
    }
}

#[test]
fn normalizes_collection_to_exactly_one_main_clock() {
    let clocks = ClockCollection::new(vec![clock("A", true), clock("B", true)]);
    assert!(clocks.as_slice()[0].is_main);
    assert!(!clocks.as_slice()[1].is_main);
}

#[test]
fn cannot_remove_last_clock() {
    let mut clocks = ClockCollection::new(vec![clock("A", true)]);
    assert!(!clocks.remove(0));
}

#[test]
fn removing_main_clock_selects_first_remaining_clock() {
    let mut clocks = ClockCollection::new(vec![clock("A", true), clock("B", false)]);
    assert!(clocks.remove(0));
    assert!(clocks.as_slice()[0].is_main);
}

#[test]
fn remove_command_cannot_empty_the_collection() {
    let mut clocks = vec![clock("UTC", true)];
    assert!(!execute_clock_command(
        &mut clocks,
        ClockCommand::Remove { index: 0 }
    ));
    assert_eq!(clocks.len(), 1);
}

#[test]
fn set_main_command_keeps_exactly_one_main_clock() {
    let mut clocks = vec![clock("A", true), clock("B", false)];
    assert!(execute_clock_command(
        &mut clocks,
        ClockCommand::SetMain { index: 1 }
    ));
    assert!(!clocks[0].is_main);
    assert!(clocks[1].is_main);
}

#[test]
fn normalization_keeps_the_first_flagged_clock() {
    let clocks = ClockCollection::new(vec![clock("A", false), clock("B", true), clock("C", true)]);
    let flags: Vec<bool> = clocks.as_slice().iter().map(|c| c.is_main).collect();
    assert_eq!(flags, vec![false, true, false]);
    let none = ClockCollection::new(vec![clock("A", false), clock("B", false)]);
    assert!(none.as_slice()[0].is_main);
    assert!(!none.as_slice()[1].is_main);
}

#[test]
fn move_swaps_two_distinct_clocks_and_refuses_the_rest() {
    let mut clocks = vec![clock("A", true), clock("B", false), clock("C", false)];
    assert!(execute_clock_command(&mut clocks, ClockCommand::Move { from: 0, to: 2 }));
    let labels: Vec<&str> = clocks.iter().map(|c| c.label.as_str()).collect();
    assert_eq!(labels, vec!["C", "B", "A"]);
    assert!(clocks[2].is_main);
    assert!(!execute_clock_command(&mut clocks, ClockCommand::Move { from: 1, to: 1 }));
    assert!(!execute_clock_command(&mut clocks, ClockCommand::Move { from: 0, to: 3 }));
}

#[test]
fn add_appends_and_empty_list_is_untouched() {
    let mut clocks = vec![clock("A", true)];
    assert!(execute_clock_command(&mut clocks, ClockCommand::Add(clock("B", false))));
    assert_eq!(clocks.len(), 2);
    assert_eq!(clocks[1].label, "B");
    let mut empty: Vec<Clock> = vec![];
    assert!(!execute_clock_command(&mut empty, ClockCommand::SetMain { index: 0 }));
    assert!(empty.is_empty());
    assert!(!execute_clock_command(&mut clocks, ClockCommand::SetMain { index: 5 }));
}

#[test]
fn removing_a_non_main_clock_keeps_the_main_flag() {
    let mut clocks = ClockCollection::new(vec![clock("A", false), clock("B", true), clock("C", false)]);
    assert!(clocks.remove(2));
    assert!(clocks.as_slice()[1].is_main);
    assert!(!clocks.as_slice()[0].is_main);
    assert!(!clocks.remove(7));
    let added = clocks.add(clock("D", false));
    assert_eq!(added, 2);
    assert_eq!(clocks.into_vec().len(), 3);
}

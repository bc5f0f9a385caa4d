use crowd2x::biology::{ProcessId, Switches};
use crowd2x::item::ItemKind;

#[test]
fn switches_turn_one_process_off_and_on_and_leave_the_rest_alone() {
    let switches = Switches::all().with(ProcessId::Thirst, false);
    assert!(!switches.is_on(ProcessId::Thirst));
    assert!(switches.is_on(ProcessId::Hunger));
    assert!(switches.is_on(ProcessId::Bladder));
    assert_eq!(switches.with(ProcessId::Thirst, true), Switches::all());
    assert_eq!(
        ProcessId::all().iter().fold(Switches::all(), |s, &p| s.with(p, false)),
        Switches::none()
    );
}

#[test]
fn processes_are_named_and_numbered_in_run_order() {
    let names: Vec<&str> = ProcessId::all().iter().map(|p| p.name()).collect();
    assert_eq!(names, ["hunger", "thirst", "bladder"]);
    for (i, p) in ProcessId::all().into_iter().enumerate() {
        assert_eq!(p.index() as usize, i);
    }
    assert_eq!(ProcessId::COUNT, ProcessId::all().len());
}

#[test]
fn every_kind_is_in_all() {
    assert_eq!(ItemKind::all().len(), ItemKind::COUNT);
    assert_eq!(ItemKind::all()[0].name(), "food");
    assert_eq!(ItemKind::all()[1].name(), "water");
}

#[test]
fn switching_a_process_back_leaves_the_switches_as_they_were() {
    let start = Switches::all().with(ProcessId::Bladder, false);
    for process in ProcessId::all() {
        for on in [true, false] {
            let back = start.with(process, on).with(process, start.is_on(process));
            assert_eq!(back, start, "{process:?} {on}");
        }
    }
}

#[test]
fn default_switches_run_every_process() {
    let s = Switches::default();
    for p in ProcessId::all() {
        assert!(s.is_on(p));
    }
}

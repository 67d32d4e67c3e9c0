use libcw::{Mars, MarsBuilder};

#[test]
fn test_build_mars_is_halted() {
    let mars: Mars = MarsBuilder::new().build();
    assert_eq!(true, mars.halted());
}

#[test]
fn test_version_set() {
    let mars: Mars = MarsBuilder::new().version(890).build();
    assert_eq!(890, mars.version());
}

#[test]
fn test_size_set() {
    let mars: Mars = MarsBuilder::new().size(890).build();
    assert_eq!(890, mars.size());
}

#[test]
fn test_pspace_size_set() {
    let mars: Mars = MarsBuilder::new().pspace_size(890).build();
    assert_eq!(890, mars.pspace_size());
}

#[test]
fn test_max_cycles_set() {
    let mars: Mars = MarsBuilder::new().max_cycles(890).build();
    assert_eq!(890, mars.max_cycles());
}

#[test]
fn test_max_processes_set() {
    let mars: Mars = MarsBuilder::new().max_processes(890).build();
    assert_eq!(890, mars.max_processes());
}

#[test]
fn test_max_length_set() {
    let mars: Mars = MarsBuilder::new().max_length(890).build();
    assert_eq!(890, mars.max_length());
}

#[test]
fn test_min_distance_set() {
    let mars: Mars = MarsBuilder::new().min_distance(890).build();
    assert_eq!(890, mars.min_distance());
}

#[test]
fn builder_defaults() {
    let mars = MarsBuilder::new().build();
    assert_eq!(8000, mars.size());
    assert_eq!(500, mars.pspace_size());
    assert_eq!(80000, mars.max_cycles());
    assert_eq!(8000, mars.max_processes());
    assert_eq!(100, mars.max_length());
    assert_eq!(100, mars.min_distance());
    assert_eq!(80, mars.version());
    assert_eq!(0, mars.cycle());
    assert_eq!(None, mars.pc());
    assert_eq!(None, mars.pid());
    assert_eq!(0, mars.process_count());
}

#[test]
fn build_is_pure() {
    let a = MarsBuilder::new().size(64).max_cycles(7).build();
    let b = MarsBuilder::new().size(64).max_cycles(7).build();
    assert!(a.halted() && b.halted());
    assert_eq!(a.memory(), b.memory());
    assert_eq!(a.size(), b.size());
    assert_eq!(a.max_cycles(), b.max_cycles());
    assert_eq!(a.pcs(), b.pcs());
    assert_eq!(a.cycle(), b.cycle());
}

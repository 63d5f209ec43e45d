use mdmake::ModRegistry;

fn obs(entries: &[(&str, u64)]) -> Vec<(String, u64)> {
    entries.iter().map(|(p, t)| (p.to_string(), *t)).collect()
}

#[test]
fn new_file_triggers_once_then_rests() {
    let mut reg = ModRegistry::new();
    let first = reg.tick(&obs(&[("src/f.md", 100)]));
    assert_eq!(first, vec!["src/f.md".to_string()]);
    let second = reg.tick(&obs(&[("src/f.md", 100)]));
    assert_eq!(second, Vec::<String>::new());
}

#[test]
fn touched_file_recompiles_exactly_once() {
    let mut reg = ModRegistry::new();
    reg.tick(&obs(&[("src/f.md", 100)]));
    let touched = reg.tick(&obs(&[("src/f.md", 250)]));
    assert_eq!(touched, vec!["src/f.md".to_string()]);
    let after = reg.tick(&obs(&[("src/f.md", 250)]));
    assert_eq!(after, Vec::<String>::new());
}

#[test]
fn unchanged_file_never_recompiles() {
    let mut reg = ModRegistry::new();
    reg.tick(&obs(&[("src/f.md", 100)]));
    for _ in 0..3 {
        assert_eq!(reg.tick(&obs(&[("src/f.md", 100)])), Vec::<String>::new());
    }
}

#[test]
fn older_observation_does_not_trigger() {
    let mut reg = ModRegistry::new();
    reg.tick(&obs(&[("src/f.md", 100)]));
    assert_eq!(reg.tick(&obs(&[("src/f.md", 40)])), Vec::<String>::new());
}

#[test]
fn added_file_triggers_on_the_tick_that_sees_it() {
    let mut reg = ModRegistry::new();
    reg.tick(&obs(&[("src/a.md", 10)]));
    let next = reg.tick(&obs(&[("src/a.md", 10), ("src/new.md", 11)]));
    assert_eq!(next, vec!["src/new.md".to_string()]);
}

#[test]
fn observe_reports_per_file_decision() {
    let mut reg = ModRegistry::new();
    assert!(reg.observe(&"src/a.md".to_string(), 5));
    assert!(!reg.observe(&"src/a.md".to_string(), 5));
    assert!(!reg.observe(&"src/a.md".to_string(), 3));
    assert!(reg.observe(&"src/a.md".to_string(), 9));
    assert!(reg.observe(&"src/b.md".to_string(), 1));
}

#[test]
fn deleted_file_is_never_pruned_and_reappearance_compares_times() {
    let mut reg = ModRegistry::new();
    reg.tick(&obs(&[("src/gone.md", 50)]));
    // The file vanishes from a walk: nothing triggers, nothing is forgotten.
    assert_eq!(reg.tick(&obs(&[])), Vec::<String>::new());
    // It reappears with its old time: still recorded, so no recompilation.
    assert_eq!(reg.tick(&obs(&[("src/gone.md", 50)])), Vec::<String>::new());
}

#[test]
fn independent_files_do_not_disturb_each_other() {
    let mut reg = ModRegistry::new();
    reg.tick(&obs(&[("src/a.md", 1), ("src/b.md", 1)]));
    let out = reg.tick(&obs(&[("src/a.md", 2), ("src/b.md", 1)]));
    assert_eq!(out, vec!["src/a.md".to_string()]);
}

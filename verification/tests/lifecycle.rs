use bot_mc::errors::ClientError;
use bot_mc::lifecycle::{Config, Manager};

fn manager(min_port: i64, max_port: i64, single_instance: bool) -> Manager {
    Manager::new(Config {
        min_port,
        max_port,
        default_difficulty: "easy".to_string(),
        admin_player: "admin".to_string(),
        single_instance,
    })
}

fn create_named(m: &mut Manager, name: &str) -> Result<bot_mc::lifecycle::CreateOutcome, ClientError> {
    m.create(&name.to_string(), None, None, &Vec::new())
}

#[test]
fn scenario_port_exhaustion() {
    let mut m = manager(10, 11, false);
    let out = create_named(&mut m, "Alpha").unwrap();
    assert_eq!(out.summary.port, 10);
    let err = create_named(&mut m, "Beta").unwrap_err();
    assert!(matches!(err, ClientError::NoPortAvailable));
}

#[test]
fn scenario_lifecycle() {
    let mut m = manager(10, 20, false);
    let out = create_named(&mut m, "Alpha").unwrap();
    assert!(!out.summary.started);
    let name = "Alpha".to_string();

    let wd = m.start_begin(&name).unwrap();
    assert_eq!(wd, out.work_dir);
    m.start_finish(&name, Ok(())).unwrap();
    let (items, _) = m.list(0, 4);
    assert!(items[0].started);

    let err = m.remove_begin(&name).unwrap_err();
    assert!(matches!(err, ClientError::StillRunning));

    m.stop_begin(&name).unwrap();
    m.stop_finish(&name, Ok(())).unwrap();

    m.remove_begin(&name).unwrap();
    m.remove_finish(&name).unwrap();
    let (items, info) = m.list(0, 4);
    assert!(items.is_empty());
    assert_eq!(info.page_count, 1);
}

#[test]
fn scenario_case_insensitive() {
    let mut m = manager(10, 20, false);
    create_named(&mut m, "alpha").unwrap();
    let err = create_named(&mut m, "ALPHA").unwrap_err();
    assert!(matches!(err, ClientError::AlreadyExists));
}

#[test]
fn create_normalizes_name() {
    let mut m = manager(10, 20, false);
    let out = create_named(&mut m, "MiXeD").unwrap();
    assert_eq!(out.summary.name, "mixed");
}

#[test]
fn create_rejects_unknown_version() {
    let mut m = manager(10, 20, false);
    let allowed = vec!["1.20.1".to_string(), "1.19".to_string()];
    let err = m
        .create(&"alpha".to_string(), Some(&"9.9".to_string()), None, &allowed)
        .unwrap_err();
    assert!(matches!(err, ClientError::InvalidVersion));
    // the failed attempt left nothing behind
    let (items, _) = m.list(0, 4);
    assert!(items.is_empty());
}

#[test]
fn create_accepts_allowed_version() {
    let mut m = manager(10, 20, false);
    let allowed = vec!["1.20.1".to_string(), "1.19".to_string()];
    let out = m
        .create(&"alpha".to_string(), Some(&"1.20.1".to_string()), None, &allowed)
        .unwrap();
    assert_eq!(out.summary.version, "1.20.1");
}

#[test]
fn create_defaults() {
    let mut m = manager(10, 20, false);
    let out = create_named(&mut m, "alpha").unwrap();
    assert_eq!(out.summary.version, "latest");
    assert_eq!(out.summary.difficulty, "easy");
    assert!(!out.summary.started);
}

#[test]
fn create_failed_attempt_reserves_nothing() {
    let mut m = manager(10, 11, false);
    create_named(&mut m, "alpha").unwrap();
    // the range is exhausted: this attempt fails and reserves nothing
    assert!(create_named(&mut m, "beta").is_err());
    // freeing the port makes the same creation succeed, on the same port
    m.remove_begin(&"alpha".to_string()).unwrap();
    m.remove_finish(&"alpha".to_string()).unwrap();
    let out = create_named(&mut m, "beta").unwrap();
    assert_eq!(out.summary.port, 10);
}

#[test]
fn start_unknown_not_found() {
    let m = manager(10, 20, false);
    let err = m.start_begin(&"ghost".to_string()).unwrap_err();
    assert!(matches!(err, ClientError::NotFound));
}

#[test]
fn start_twice_already_running() {
    let mut m = manager(10, 20, false);
    create_named(&mut m, "alpha").unwrap();
    let name = "alpha".to_string();
    m.start_begin(&name).unwrap();
    m.start_finish(&name, Ok(())).unwrap();
    let err = m.start_begin(&name).unwrap_err();
    assert!(matches!(err, ClientError::AlreadyRunning));
}

#[test]
fn start_process_failure_leaves_stopped() {
    let mut m = manager(10, 20, false);
    create_named(&mut m, "alpha").unwrap();
    let name = "alpha".to_string();
    m.start_begin(&name).unwrap();
    let err = m.start_finish(&name, Err("spawn failed".to_string())).unwrap_err();
    assert!(matches!(err, ClientError::ProcessError(_)));
    let (items, _) = m.list(0, 4);
    assert!(!items[0].started);
}

#[test]
fn stop_stopped_already_stopped() {
    let mut m = manager(10, 20, false);
    create_named(&mut m, "alpha").unwrap();
    let err = m.stop_begin(&"alpha".to_string()).unwrap_err();
    assert!(matches!(err, ClientError::AlreadyStopped));
}

#[test]
fn stop_process_failure_leaves_running() {
    let mut m = manager(10, 20, false);
    create_named(&mut m, "alpha").unwrap();
    let name = "alpha".to_string();
    m.start_begin(&name).unwrap();
    m.start_finish(&name, Ok(())).unwrap();
    let err = m.stop_finish(&name, Err("runtime failure".to_string())).unwrap_err();
    assert!(matches!(err, ClientError::ProcessError(_)));
    let (items, _) = m.list(0, 4);
    assert!(items[0].started);
}

#[test]
fn remove_unknown_not_found() {
    let mut m = manager(10, 20, false);
    let err = m.remove_finish(&"ghost".to_string()).unwrap_err();
    assert!(matches!(err, ClientError::NotFound));
}

#[test]
fn single_instance_policy_blocks_second_start() {
    let mut m = manager(10, 20, true);
    create_named(&mut m, "alpha").unwrap();
    create_named(&mut m, "beta").unwrap();
    let alpha = "alpha".to_string();
    let beta = "beta".to_string();
    m.start_begin(&alpha).unwrap();
    m.start_finish(&alpha, Ok(())).unwrap();
    let err = m.start_begin(&beta).unwrap_err();
    assert!(matches!(err, ClientError::AlreadyRunning));
}

#[test]
fn unlimited_policy_allows_second_start() {
    let mut m = manager(10, 20, false);
    create_named(&mut m, "alpha").unwrap();
    create_named(&mut m, "beta").unwrap();
    let alpha = "alpha".to_string();
    let beta = "beta".to_string();
    m.start_begin(&alpha).unwrap();
    m.start_finish(&alpha, Ok(())).unwrap();
    m.start_begin(&beta).unwrap();
    m.start_finish(&beta, Ok(())).unwrap();
    let (items, _) = m.list(0, 4);
    assert!(items.iter().all(|s| s.started));
}

#[test]
fn list_is_sorted_by_name() {
    let mut m = manager(10, 20, false);
    create_named(&mut m, "bravo").unwrap();
    create_named(&mut m, "alpha").unwrap();
    create_named(&mut m, "charlie").unwrap();
    let (items, _) = m.list(0, 10);
    let names: Vec<&str> = items.iter().map(|s| s.name.as_str()).collect();
    assert_eq!(names, vec!["alpha", "bravo", "charlie"]);
}

#[test]
fn list_paginates() {
    let mut m = manager(10, 20, false);
    for name in ["a", "b", "c", "d", "e"] {
        create_named(&mut m, name).unwrap();
    }
    let (items, info) = m.list(0, 2);
    assert_eq!(items.len(), 2);
    assert_eq!(info.page_number, 1);
    assert_eq!(info.page_count, 3);
    let (items, info) = m.list(9, 2);
    assert_eq!(info.page_number, 3);
    assert_eq!(items.len(), 1);
    assert_eq!(items[0].name, "e");
}

#[test]
fn ports_allocate_lowest_free() {
    let mut m = manager(10, 20, false);
    let a = create_named(&mut m, "a").unwrap();
    let b = create_named(&mut m, "b").unwrap();
    assert_eq!(a.summary.port, 10);
    assert_eq!(b.summary.port, 11);
    m.remove_begin(&"a".to_string()).unwrap();
    m.remove_finish(&"a".to_string()).unwrap();
    let c = create_named(&mut m, "c").unwrap();
    assert_eq!(c.summary.port, 10);
}

#[test]
fn work_dirs_follow_ids() {
    let mut m = manager(10, 20, false);
    let a = create_named(&mut m, "a").unwrap();
    let b = create_named(&mut m, "b").unwrap();
    assert_eq!(a.work_dir, "worlds/1");
    assert_eq!(b.work_dir, "worlds/2");
    // ids are never reused, even after a removal
    m.remove_begin(&"a".to_string()).unwrap();
    m.remove_finish(&"a".to_string()).unwrap();
    let c = create_named(&mut m, "c").unwrap();
    assert_eq!(c.work_dir, "worlds/3");
}

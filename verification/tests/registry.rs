use bot_mc::errors::ClientError;
use bot_mc::registry::Registry;

fn insert_named(reg: &mut Registry, name: &str, port: i64) -> Result<i64, ClientError> {
    reg.insert(
        name.to_string(),
        "latest".to_string(),
        "easy".to_string(),
        port,
    )
}

#[test]
fn insert_assigns_increasing_ids() {
    let mut reg = Registry::new();
    let a = insert_named(&mut reg, "alpha", 10).unwrap();
    let b = insert_named(&mut reg, "beta", 11).unwrap();
    assert_eq!(a, 1);
    assert_eq!(b, 2);
    assert_eq!(reg.count(), 2);
}

#[test]
fn insert_refuses_duplicate_names() {
    let mut reg = Registry::new();
    insert_named(&mut reg, "alpha", 10).unwrap();
    let err = insert_named(&mut reg, "alpha", 11).unwrap_err();
    assert!(matches!(err, ClientError::AlreadyExists));
    assert_eq!(reg.count(), 1);
}

#[test]
fn get_finds_by_name() {
    let mut reg = Registry::new();
    insert_named(&mut reg, "alpha", 10).unwrap();
    let rec = reg.get(&"alpha".to_string()).unwrap();
    assert_eq!(rec.name, "alpha");
    assert_eq!(rec.port, 10);
    assert!(!rec.started);
    assert!(reg.get(&"beta".to_string()).is_none());
}

#[test]
fn set_started_flips_state() {
    let mut reg = Registry::new();
    insert_named(&mut reg, "alpha", 10).unwrap();
    reg.set_started(&"alpha".to_string(), true).unwrap();
    assert!(reg.get(&"alpha".to_string()).unwrap().started);
    reg.set_started(&"alpha".to_string(), false).unwrap();
    assert!(!reg.get(&"alpha".to_string()).unwrap().started);
    let err = reg.set_started(&"ghost".to_string(), true).unwrap_err();
    assert!(matches!(err, ClientError::NotFound));
}

#[test]
fn remove_deletes_the_record() {
    let mut reg = Registry::new();
    insert_named(&mut reg, "alpha", 10).unwrap();
    reg.remove(&"alpha".to_string()).unwrap();
    assert_eq!(reg.count(), 0);
    let err = reg.remove(&"alpha".to_string()).unwrap_err();
    assert!(matches!(err, ClientError::NotFound));
}

#[test]
fn records_are_kept_in_name_order() {
    let mut reg = Registry::new();
    insert_named(&mut reg, "delta", 10).unwrap();
    insert_named(&mut reg, "alpha", 11).unwrap();
    insert_named(&mut reg, "charlie", 12).unwrap();
    let page = reg.list_page(0, 10);
    let names: Vec<&str> = page.iter().map(|r| r.name.as_str()).collect();
    assert_eq!(names, vec!["alpha", "charlie", "delta"]);
}

#[test]
fn list_page_slices() {
    let mut reg = Registry::new();
    for (i, name) in ["a", "b", "c", "d", "e"].iter().enumerate() {
        insert_named(&mut reg, name, 10 + i as i64).unwrap();
    }
    let page = reg.list_page(2, 2);
    let names: Vec<&str> = page.iter().map(|r| r.name.as_str()).collect();
    assert_eq!(names, vec!["c", "d"]);
    assert_eq!(reg.list_page(4, 2).len(), 1);
    assert!(reg.list_page(9, 2).is_empty());
}

#[test]
fn allocated_ports_reports_each_record() {
    let mut reg = Registry::new();
    insert_named(&mut reg, "beta", 14).unwrap();
    insert_named(&mut reg, "alpha", 12).unwrap();
    let mut ports = reg.allocated_ports();
    ports.sort_unstable();
    assert_eq!(ports, vec![12, 14]);
}

#[test]
fn contains_name_matches_exactly() {
    let mut reg = Registry::new();
    insert_named(&mut reg, "alpha", 10).unwrap();
    assert!(reg.contains_name(&"alpha".to_string()));
    assert!(!reg.contains_name(&"alph".to_string()));
    assert!(!reg.contains_name(&"alphaa".to_string()));
}

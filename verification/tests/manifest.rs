use bot_mc::manifest::{dec_string, generate, work_dir_string};

#[test]
fn generation_is_deterministic() {
    let name = "alpha".to_string();
    let version = "1.20.1".to_string();
    let difficulty = "hard".to_string();
    let admin = "admin".to_string();
    let first = generate(&name, Some(&version), &difficulty, 10, &admin);
    let second = generate(&name, Some(&version), &difficulty, 10, &admin);
    assert_eq!(first, second);
    assert_eq!(first.as_bytes(), second.as_bytes());
}

#[test]
fn full_document() {
    let text = generate(
        &"alpha".to_string(),
        Some(&"1.20.1".to_string()),
        &"easy".to_string(),
        10,
        &"admin".to_string(),
    );
    let expected = "services:\n  alpha:\n    image: itzg/minecraft-server\n    tty: true\n    stdin_open: true\n    ports:\n    - \"10:25565\"\n    environment:\n      EULA: \"TRUE\"\n      OPS: \"admin\"\n      VERSION: \"1.20.1\"\n      DIFFICULTY: \"easy\"\n    volumes:\n    - ./data:/data\n";
    assert_eq!(text, expected);
}

#[test]
fn document_without_version() {
    let text = generate(
        &"alpha".to_string(),
        None,
        &"easy".to_string(),
        25599,
        &"admin".to_string(),
    );
    assert!(!text.contains("VERSION"));
    assert!(text.contains("- \"25599:25565\"\n"));
    assert!(text.contains("EULA: \"TRUE\""));
    assert!(text.contains("OPS: \"admin\""));
    assert!(text.contains("DIFFICULTY: \"easy\""));
    assert!(text.contains("- ./data:/data"));
}

#[test]
fn decimal_text() {
    assert_eq!(dec_string(0), "0");
    assert_eq!(dec_string(7), "7");
    assert_eq!(dec_string(10), "10");
    assert_eq!(dec_string(25565), "25565");
    assert_eq!(dec_string(i64::MAX), "9223372036854775807");
}

#[test]
fn work_dir_from_id() {
    assert_eq!(work_dir_string(1), "worlds/1");
    assert_eq!(work_dir_string(42), "worlds/42");
}

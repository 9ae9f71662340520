use bot_mc::errors::ClientError;
use bot_mc::util::get_time;
use bot_mc::versions::{filter_versions, load_versions};

#[test]
fn parses_a_version_list() {
    let json = "[\"1.20.1\", \"1.19\", \"1.18.2\"]".to_string();
    let versions = load_versions(&json).unwrap();
    assert_eq!(versions, vec!["1.20.1", "1.19", "1.18.2"]);
}

#[test]
fn rejects_a_malformed_document() {
    let err = load_versions(&"not json at all".to_string()).unwrap_err();
    assert!(matches!(err, ClientError::StorageError(_)));
}

#[test]
fn rejects_a_non_list_document() {
    let err = load_versions(&"{\"a\": 1}".to_string()).unwrap_err();
    assert!(matches!(err, ClientError::StorageError(_)));
}

#[test]
fn filters_by_substring() {
    let versions = vec!["1.20.1".to_string(), "1.19".to_string(), "2.0".to_string()];
    let hits = filter_versions(&versions, &"20".to_string());
    assert_eq!(hits, vec!["1.20.1"]);
}

#[test]
fn empty_query_matches_everything() {
    let versions = vec!["1.20.1".to_string(), "1.19".to_string()];
    let hits = filter_versions(&versions, &"".to_string());
    assert_eq!(hits, versions);
}

#[test]
fn suggestions_are_capped() {
    let versions: Vec<String> = (0..40).map(|i| format!("1.{i}")).collect();
    let hits = filter_versions(&versions, &"1.".to_string());
    assert_eq!(hits.len(), 25);
    assert_eq!(hits[0], "1.0");
    assert_eq!(hits[24], "1.24");
}

#[test]
fn clock_reads_after_epoch() {
    let t = get_time().unwrap();
    assert!(t > 0);
}

#[test]
fn error_messages() {
    assert_eq!(
        ClientError::NoPortAvailable.message(),
        "Pas de port disponible."
    );
    assert_eq!(
        ClientError::ProcessError("exit code 1".to_string()).message(),
        "Erreur du processus externe: exit code 1"
    );
}

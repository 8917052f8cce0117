use evtap::rename::{check_rename, RenameRefusal, RenameTarget};
use evtap::session::{KeyboardContext, SessionId, SessionMetadata};

fn saved(id: i64, name: Option<&str>) -> SessionMetadata {
    SessionMetadata {
        id: SessionId::new(id).unwrap(),
        name: name.map(str::to_owned),
        created_at_ms: 1,
        updated_at_ms: 1,
        last_opened_at_ms: 1,
        captured_duration_ns: 0,
        application_version: "test".to_owned(),
        keyboard: KeyboardContext::default(),
    }
}

#[test]
fn names_are_trimmed_and_blank_names_clear_the_name() {
    let sessions = vec![saved(1, Some("Drills"))];
    assert_eq!(
        check_rename("  Morning  ", RenameTarget::Current, None, None, &sessions),
        Ok(Some("Morning".to_owned()))
    );
    assert_eq!(check_rename(" \t ", RenameTarget::Current, None, None, &sessions), Ok(None));
}

#[test]
fn long_names_are_refused() {
    let name = "é".repeat(41);
    assert_eq!(
        check_rename(&name, RenameTarget::Current, None, None, &Vec::new()),
        Err(RenameRefusal::TooLong)
    );
    assert_eq!(
        check_rename(&"a".repeat(80), RenameTarget::Current, None, None, &Vec::new()),
        Ok(Some("a".repeat(80)))
    );
    assert_eq!(RenameRefusal::TooLong.message(), "Session name is longer than 80 UTF-8 bytes.");
}

#[test]
fn names_of_other_sessions_are_taken() {
    let sessions = vec![saved(1, Some("Drills")), saved(2, Some("Tests"))];
    let first = SessionId::new(1).unwrap();
    let second = SessionId::new(2).unwrap();
    assert_eq!(
        check_rename("Tests", RenameTarget::Current, Some(first), None, &sessions),
        Err(RenameRefusal::NameTaken)
    );
    assert_eq!(
        check_rename("Drills", RenameTarget::Current, Some(first), Some("Drills"), &sessions),
        Ok(Some("Drills".to_owned()))
    );
    assert_eq!(
        check_rename("Active", RenameTarget::Saved(second), None, Some("Active"), &sessions),
        Err(RenameRefusal::NameTaken)
    );
    assert_eq!(
        check_rename("Active", RenameTarget::Saved(second), Some(second), Some("Active"), &sessions),
        Ok(Some("Active".to_owned()))
    );
    assert_eq!(RenameRefusal::NameTaken.message(), "Another session already uses that name.");
}

use cfnupd::status::{classify, StatusClass};

#[test]
fn in_progress_statuses() {
    assert!(matches!(classify("UPDATE_IN_PROGRESS"), StatusClass::InProgress));
    assert!(matches!(classify("CREATE_IN_PROGRESS"), StatusClass::InProgress));
    assert!(matches!(classify("ROLLBACK_IN_PROGRESS"), StatusClass::InProgress));
    assert!(matches!(
        classify("UPDATE_ROLLBACK_COMPLETE_CLEANUP_IN_PROGRESS"),
        StatusClass::InProgress
    ));
}

#[test]
fn failed_or_rolled_back_statuses() {
    assert!(matches!(classify("UPDATE_ROLLBACK_COMPLETE"), StatusClass::FailedOrRolledBack));
    assert!(matches!(classify("UPDATE_FAILED"), StatusClass::FailedOrRolledBack));
    assert!(matches!(classify("CREATE_FAILED"), StatusClass::FailedOrRolledBack));
    assert!(matches!(classify("ROLLBACK_COMPLETE"), StatusClass::FailedOrRolledBack));
}

#[test]
fn stable_statuses() {
    assert!(matches!(classify("UPDATE_COMPLETE"), StatusClass::Stable));
    assert!(matches!(classify("CREATE_COMPLETE"), StatusClass::Stable));
    assert!(matches!(classify("SOME_FUTURE_STATUS"), StatusClass::Stable));
    assert!(matches!(classify(""), StatusClass::Stable));
}

#[test]
fn classification_is_by_substring_alone() {
    // not a real remote status: the classes must still apply by substring
    assert!(matches!(classify("xFAILx"), StatusClass::FailedOrRolledBack));
    assert!(matches!(classify("xIN_PROGRESSx"), StatusClass::InProgress));
    assert!(matches!(classify("IN PROGRESS"), StatusClass::Stable));
}

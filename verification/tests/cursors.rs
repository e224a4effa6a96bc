use proofstorm_mcp::cursor::{
    activity_boundary, activity_cursor, directory_cursor, directory_offset, search_cursor,
    search_start, session_cursor, split_session_cursor, status_page_start,
};
use proofstorm_mcp::error::ErrorCode;

#[test]
fn configuration_search_cursors_resume_where_issued() {
    let cursor = search_cursor("sha256:abc", 40);
    assert_eq!(cursor, "sha256:abc:40");
    assert_eq!(search_start(Some(&cursor), "sha256:abc").unwrap(), 40);
    assert_eq!(search_start(None, "sha256:abc").unwrap(), 0);
    for bad in ["sha256:other:40", "nocolon", "sha256:abc:x", "sha256:abc:-1"] {
        let error = search_start(Some(bad), "sha256:abc").unwrap_err();
        assert_eq!(error.code, Some(ErrorCode::CellSearchCursorInvalid));
    }
}

#[test]
fn activity_cursors_bind_the_fingerprint_and_a_nonempty_boundary() {
    let cursor = activity_cursor("fp", "operation-7");
    assert_eq!(cursor, "fp:operation-7");
    assert_eq!(activity_boundary(Some(&cursor), "fp").unwrap(), "operation-7");
    assert_eq!(activity_boundary(None, "fp").unwrap(), "");
    for bad in ["fp:", "other:operation-7", "plain"] {
        assert_eq!(
            activity_boundary(Some(bad), "fp").unwrap_err().code,
            Some(ErrorCode::ActivitySearchCursorInvalid)
        );
    }
}

#[test]
fn session_cursors_round_trip_observation_time_and_boundary() {
    let cursor = session_cursor("digest", -17, "session-003");
    assert_eq!(cursor, "digest:-17:session-003");
    let (observed, boundary, digest) = split_session_cursor(&cursor).unwrap();
    assert_eq!((observed, boundary.as_str(), digest.as_str()), (-17, "session-003", "digest"));
    let (observed, boundary, digest) = split_session_cursor("a:b:1700000000:s").unwrap();
    assert_eq!((observed, boundary.as_str(), digest.as_str()), (1700000000, "s", "a:b"));
    for bad in ["digest:17:", "digest:x:s", "s", "17:s"] {
        assert_eq!(split_session_cursor(bad).unwrap_err().code, Some(ErrorCode::SessionCursorInvalid));
    }
}

#[test]
fn status_cursors_resume_after_the_named_item() {
    let cursors = vec!["c0".to_owned(), "c1".to_owned(), "c2".to_owned()];
    assert_eq!(status_page_start(None, &cursors).unwrap(), 0);
    assert_eq!(status_page_start(Some("c1"), &cursors).unwrap(), 2);
    assert_eq!(status_page_start(Some("c2"), &cursors).unwrap(), 3);
    assert_eq!(
        status_page_start(Some("gone"), &cursors).unwrap_err().code,
        Some(ErrorCode::StatusCursorInvalid)
    );
}

#[test]
fn directory_cursors_reject_changes_and_overruns() {
    let cursor = directory_cursor("snap", 20);
    assert_eq!(cursor, "snap:20");
    assert_eq!(directory_offset(Some(&cursor), "snap", 25).unwrap(), 20);
    assert_eq!(directory_offset(None, "snap", 0).unwrap(), 0);
    assert_eq!(directory_offset(Some(&cursor), "other", 25).unwrap_err().code, Some(ErrorCode::DirectoryChanged));
    assert_eq!(directory_offset(Some(&cursor), "snap", 19).unwrap_err().code, Some(ErrorCode::DirectoryCursorInvalid));
    assert_eq!(directory_offset(Some("snap"), "snap", 25).unwrap_err().code, Some(ErrorCode::DirectoryCursorInvalid));
    assert_eq!(directory_offset(Some("snap:x"), "snap", 25).unwrap_err().code, Some(ErrorCode::DirectoryCursorInvalid));
}

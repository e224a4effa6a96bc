//! Continuation cursors: each binds a page boundary to the fingerprint of the
//! query and snapshot that produced it, and every reader rejects a cursor that
//! no longer matches.
use crate::error::{ErrorCode, ErrorDetail, ToolError, coded_invalid_request};
use crate::text::{
    chars_eq, chars_of, chars_range, decimal, lacks, last_index_exec, lemma_decimal_shape,
    lemma_parse_i64_signed_decimal, lemma_parse_usize_decimal, lemma_rsplit_once_join,
    parse_i64, parse_i64_chars, parse_usize, parse_usize_chars, push_char, render_i64, render_u64,
    rsplit_once, signed_decimal, str_eq, string_of_range, string_views,
};
use crate::text::opt_view;
use vstd::prelude::*;

verus! {

// ---------------------------------------------------------------------------
// Configuration search: `<fingerprint>:<offset>`
// ---------------------------------------------------------------------------

/// Offset named by a configuration-search cursor; `None` when the cursor is
/// malformed or bound to another fingerprint.
pub open spec fn search_start_spec(cursor: Option<Seq<char>>, fingerprint: Seq<char>) -> Option<nat> {
    match cursor {
        None => Some(0),
        Some(c) => match rsplit_once(c, ':') {
            None => None,
            Some((digest, offset)) => if digest != fingerprint {
                None
            } else {
                parse_usize(offset)
            },
        },
    }
}

pub open spec fn search_cursor_spec(fingerprint: Seq<char>, next: nat) -> Seq<char> {
    fingerprint + seq![':'] + decimal(next)
}

/// The error for a stale or malformed configuration-search cursor.
pub fn invalid_cursor() -> (e: ToolError)
    ensures
        e.is_coded(ErrorCode::CellSearchCursorInvalid),
{
    coded_invalid_request(
        ErrorCode::CellSearchCursorInvalid,
        "The document or query changed, or the cursor is invalid. Repeat the search without cursor",
    )
}

/// Where a configuration search resumes.
pub fn search_start(cursor: Option<&str>, fingerprint: &str) -> (r: Result<usize, ToolError>)
    ensures
        match r {
            Ok(n) => search_start_spec(opt_view(cursor), fingerprint@) == Some(n as nat),
            Err(e) => search_start_spec(opt_view(cursor), fingerprint@).is_none() && e.is_coded(
                ErrorCode::CellSearchCursorInvalid,
            ),
        },
{
    let cursor = match cursor {
        None => return Ok(0),
        Some(c) => c,
    };
    let chars = chars_of(cursor);
    let split = match last_index_exec(&chars, ':') {
        None => return Err(invalid_cursor()),
        Some(i) => i,
    };
    let digest = chars_range(&chars, 0, split);
    let offset = chars_range(&chars, split + 1, chars.len());
    assert(digest@ =~= chars@.take(split as int));
    assert(offset@ =~= chars@.skip(split + 1));
    let fp = chars_of(fingerprint);
    if !chars_eq(&digest, &fp) {
        return Err(invalid_cursor());
    }
    match parse_usize_chars(&offset) {
        Some(n) => Ok(n),
        None => Err(invalid_cursor()),
    }
}

/// The cursor that resumes a configuration search at `next`.
pub fn search_cursor(fingerprint: &str, next: usize) -> (s: String)
    ensures
        s@ == search_cursor_spec(fingerprint@, next as nat),
{
    let mut s = fingerprint.to_owned();
    push_char(&mut s, ':');
    let n = render_u64(next as u64);
    let s = s.concat(n.as_str());
    s
}

/// A configuration-search cursor resumes exactly where it was issued, and
/// only for the same fingerprint.
pub proof fn lemma_search_cursor_round_trip(fingerprint: Seq<char>, next: usize)
    ensures
        search_start_spec(Some(search_cursor_spec(fingerprint, next as nat)), fingerprint) == Some(
            next as nat,
        ),
        forall|other: Seq<char>|
            other != fingerprint ==> search_start_spec(
                Some(#[trigger] search_cursor_spec(fingerprint, next as nat)),
                other,
            ).is_none(),
{
    lemma_decimal_shape(next as nat);
    lemma_rsplit_once_join(fingerprint, ':', decimal(next as nat));
    lemma_parse_usize_decimal(next);
}

// ---------------------------------------------------------------------------
// Activity search: `<fingerprint>:<operation id>`
// ---------------------------------------------------------------------------

pub open spec fn activity_boundary_spec(cursor: Option<Seq<char>>, fingerprint: Seq<char>) -> Option<Seq<char>> {
    match cursor {
        None => Some(Seq::<char>::empty()),
        Some(c) => match rsplit_once(c, ':') {
            None => None,
            Some((digest, boundary)) => if digest != fingerprint || boundary.len() == 0 {
                None
            } else {
                Some(boundary)
            },
        },
    }
}

/// The error for a stale activity-search cursor.
pub fn stale_cursor() -> (e: ToolError)
    ensures
        e.is_coded(ErrorCode::ActivitySearchCursorInvalid),
        e.message@
            == "The query, cell history, or cursor changed. Repeat activity_search without cursor; no recorded data was changed"@,
        e.detail == ErrorDetail::Plain,
{
    coded_invalid_request(
        ErrorCode::ActivitySearchCursorInvalid,
        "The query, cell history, or cursor changed. Repeat activity_search without cursor; no recorded data was changed",
    )
}

/// The operation boundary after which an activity search resumes; empty for a first page.
pub fn activity_boundary(cursor: Option<&str>, fingerprint: &str) -> (r: Result<String, ToolError>)
    ensures
        match r {
            Ok(b) => activity_boundary_spec(opt_view(cursor), fingerprint@) == Some(b@),
            Err(e) => activity_boundary_spec(opt_view(cursor), fingerprint@).is_none() && e.is_coded(
                ErrorCode::ActivitySearchCursorInvalid,
            ),
        },
{
    let cursor = match cursor {
        None => return Ok(String::new()),
        Some(c) => c,
    };
    let chars = chars_of(cursor);
    let split = match last_index_exec(&chars, ':') {
        None => return Err(stale_cursor()),
        Some(i) => i,
    };
    let digest = chars_range(&chars, 0, split);
    assert(digest@ =~= chars@.take(split as int));
    assert(chars@.subrange(split + 1, chars@.len() as int) =~= chars@.skip(split + 1));
    let fp = chars_of(fingerprint);
    assert(split < chars.len());
    if !chars_eq(&digest, &fp) || split + 1 == chars.len() {
        return Err(stale_cursor());
    }
    Ok(string_of_range(&chars, split + 1, chars.len()))
}

/// The cursor that resumes an activity search after `boundary`.
pub fn activity_cursor(fingerprint: &str, boundary: &str) -> (s: String)
    ensures
        s@ == fingerprint@ + seq![':'] + boundary@,
{
    let mut s = fingerprint.to_owned();
    push_char(&mut s, ':');
    s.concat(boundary)
}

/// An activity cursor resumes after the operation it names, for the same
/// fingerprint, whenever that operation ID is nonempty and has no colon.
pub proof fn lemma_activity_cursor_round_trip(fingerprint: Seq<char>, boundary: Seq<char>)
    requires
        boundary.len() > 0,
        lacks(boundary, ':'),
    ensures
        activity_boundary_spec(Some(fingerprint + seq![':'] + boundary), fingerprint) == Some(
            boundary,
        ),
{
    lemma_rsplit_once_join(fingerprint, ':', boundary);
}

// ---------------------------------------------------------------------------
// Session directory: `<digest>:<observed_at>:<session id>`
// ---------------------------------------------------------------------------

/// `rsplitn(3, ':')` of a session cursor: boundary, observation time and digest.
pub open spec fn session_cursor_parts(c: Seq<char>) -> Option<(int, Seq<char>, Seq<char>)> {
    match rsplit_once(c, ':') {
        None => None,
        Some((rest, boundary)) => match rsplit_once(rest, ':') {
            None => None,
            Some((digest, observed)) => if boundary.len() == 0 {
                None
            } else {
                match parse_i64(observed) {
                    Some(t) => Some((t, boundary, digest)),
                    None => None,
                }
            },
        },
    }
}

pub open spec fn session_cursor_spec(digest: Seq<char>, observed_at: int, id: Seq<char>) -> Seq<char> {
    digest + seq![':'] + signed_decimal(observed_at) + seq![':'] + id
}

/// The error for a stale or malformed session-directory cursor.
pub fn stale() -> (e: ToolError)
    ensures
        e.is_coded(ErrorCode::SessionCursorInvalid),
        e.message@ == "The directory or selectors changed, or the cursor is invalid. Repeat without cursor"@,
        e.detail == ErrorDetail::Plain,
{
    coded_invalid_request(
        ErrorCode::SessionCursorInvalid,
        "The directory or selectors changed, or the cursor is invalid. Repeat without cursor",
    )
}

/// Splits a nonempty session cursor into its observation time, boundary session ID and digest.
pub fn split_session_cursor(cursor: &str) -> (r: Result<(i64, String, String), ToolError>)
    ensures
        match r {
            Ok((t, b, d)) => session_cursor_parts(cursor@) == Some((t as int, b@, d@)),
            Err(e) => session_cursor_parts(cursor@).is_none() && e.is_coded(
                ErrorCode::SessionCursorInvalid,
            ),
        },
{
    let chars = chars_of(cursor);
    let last = match last_index_exec(&chars, ':') {
        None => return Err(stale()),
        Some(i) => i,
    };
    let rest = chars_range(&chars, 0, last);
    assert(rest@ =~= chars@.take(last as int));
    assert(chars@.subrange(last + 1, chars@.len() as int) =~= chars@.skip(last + 1));
    let middle = match last_index_exec(&rest, ':') {
        None => return Err(stale()),
        Some(i) => i,
    };
    assert(last < chars.len());
    if last + 1 == chars.len() {
        return Err(stale());
    }
    let observed = chars_range(&rest, middle + 1, rest.len());
    assert(observed@ =~= rest@.skip(middle + 1));
    assert(rest@.subrange(0, middle as int) =~= rest@.take(middle as int));
    let t = match parse_i64_chars(&observed) {
        None => return Err(stale()),
        Some(t) => t,
    };
    Ok((t, string_of_range(&chars, last + 1, chars.len()), string_of_range(&rest, 0, middle)))
}

/// The cursor that resumes a session directory after session `id`.
pub fn session_cursor(digest: &str, observed_at: i64, id: &str) -> (s: String)
    ensures
        s@ == session_cursor_spec(digest@, observed_at as int, id@),
{
    let mut s = digest.to_owned();
    push_char(&mut s, ':');
    let t = render_i64(observed_at);
    let mut s = s.concat(t.as_str());
    push_char(&mut s, ':');
    s.concat(id)
}

/// A session cursor gives back its observation time, boundary and digest
/// whenever the boundary session ID is nonempty and has no colon.
pub proof fn lemma_session_cursor_round_trip(digest: Seq<char>, observed_at: i64, id: Seq<char>)
    requires
        id.len() > 0,
        lacks(id, ':'),
    ensures
        session_cursor_parts(session_cursor_spec(digest, observed_at as int, id)) == Some(
            (observed_at as int, id, digest),
        ),
{
    let t = signed_decimal(observed_at as int);
    lemma_parse_i64_signed_decimal(observed_at);
    if observed_at < 0 {
        lemma_decimal_shape((-(observed_at as int)) as nat);
        assert forall|i: int| 0 <= i < t.len() implies t[i] != ':' by {
            if i > 0 {
                assert(t[i] == decimal((-(observed_at as int)) as nat)[i - 1]);
            }
        }
    } else {
        lemma_decimal_shape(observed_at as nat);
    }
    let head = digest + seq![':'] + t;
    assert(session_cursor_spec(digest, observed_at as int, id) =~= head + seq![':'] + id);
    lemma_rsplit_once_join(head, ':', id);
    lemma_rsplit_once_join(digest, ':', t);
}

// ---------------------------------------------------------------------------
// Live status pages: cursors are opaque digests of each item's boundary
// ---------------------------------------------------------------------------

/// First index whose cursor equals `c`.
pub open spec fn first_match(cursors: Seq<Seq<char>>, c: Seq<char>) -> Option<int>
    decreases cursors.len(),
{
    if cursors.len() == 0 {
        None
    } else if cursors[0] == c {
        Some(0)
    } else {
        match first_match(cursors.drop_first(), c) {
            Some(i) => Some(i + 1),
            None => None,
        }
    }
}

/// Page start after a status cursor, given the cursor of every matching item.
pub fn status_page_start(cursor: Option<&str>, cursors: &Vec<String>) -> (r: Result<usize, ToolError>)
    ensures
        match cursor {
            None => r matches Ok(n) && n == 0,
            Some(c) => match first_match(string_views(cursors@), c@) {
                Some(i) => r matches Ok(n) && n == i + 1,
                None => r matches Err(e) && e.is_coded(ErrorCode::StatusCursorInvalid),
            },
        },
{
    let c = match cursor {
        None => return Ok(0),
        Some(c) => c,
    };
    let mut i: usize = 0;
    while i < cursors.len()
        invariant
            i <= cursors@.len(),
            cursor == Some(c),
            forall|k: int| 0 <= k < i ==> cursors@[k]@ != c@,
        decreases cursors@.len() - i,
    {
        if str_eq(cursors[i].as_str(), c) {
            proof {
                lemma_first_match_at(string_views(cursors@), c@, i as int);
            }
            return Ok(i + 1);
        }
        i = i + 1;
    }
    proof {
        lemma_first_match_none(string_views(cursors@), c@);
    }
    Err(
        coded_invalid_request(
            ErrorCode::StatusCursorInvalid,
            "status cursor is invalid or belongs to an older snapshot",
        ),
    )
}

pub proof fn lemma_first_match_at(s: Seq<Seq<char>>, c: Seq<char>, i: int)
    requires
        0 <= i < s.len(),
        s[i] == c,
        forall|k: int| 0 <= k < i ==> s[k] != c,
    ensures
        first_match(s, c) == Some(i),
    decreases i,
{
    if i > 0 {
        lemma_first_match_at(s.drop_first(), c, i - 1);
    }
}

pub proof fn lemma_first_match_bounds(s: Seq<Seq<char>>, c: Seq<char>)
    ensures
        first_match(s, c) matches Some(i) ==> 0 <= i < s.len() && s[i] == c,
    decreases s.len(),
{
    if s.len() > 0 {
        lemma_first_match_bounds(s.drop_first(), c);
    }
}

pub proof fn lemma_first_match_none(s: Seq<Seq<char>>, c: Seq<char>)
    requires
        forall|k: int| 0 <= k < s.len() ==> s[k] != c,
    ensures
        first_match(s, c).is_none(),
    decreases s.len(),
{
    if s.len() > 0 {
        lemma_first_match_none(s.drop_first(), c);
    }
}

/// With distinct item cursors, the cursor issued for item `i` resumes at `i + 1`.
pub proof fn lemma_status_cursor_resumes_after_item(cursors: Seq<Seq<char>>, i: int)
    requires
        0 <= i < cursors.len(),
        forall|a: int, b: int| 0 <= a < b < cursors.len() ==> cursors[a] != cursors[b],
    ensures
        first_match(cursors, cursors[i]) == Some(i),
{
    lemma_first_match_at(cursors, cursors[i], i);
}

// ---------------------------------------------------------------------------
// Build and run directories: `<snapshot digest>:<offset>`
// ---------------------------------------------------------------------------

pub open spec fn directory_offset_spec(cursor: Option<Seq<char>>, digest: Seq<char>, count: nat) -> Result<nat, ErrorCode> {
    match cursor {
        None => Ok(0),
        Some(c) => match rsplit_once(c, ':') {
            None => Err(ErrorCode::DirectoryCursorInvalid),
            Some((bound, offset)) => if bound != digest {
                Err(ErrorCode::DirectoryChanged)
            } else {
                match parse_usize(offset) {
                    None => Err(ErrorCode::DirectoryCursorInvalid),
                    Some(n) => if n > count {
                        Err(ErrorCode::DirectoryCursorInvalid)
                    } else {
                        Ok(n)
                    },
                }
            },
        },
    }
}

/// Checks directory selectors: a page of 1..=50 records, and scan or fields, not both.
pub fn validate_directory_query(limit: usize, scan: bool, field_count: usize) -> (r: Result<(), ToolError>)
    ensures
        r is Ok <==> (1 <= limit <= 50 && !(scan && field_count > 0)),
        r matches Err(e) ==> e.is_coded(ErrorCode::DirectoryQueryInvalid),
{
    if !(1 <= limit && limit <= 50) || scan && field_count > 0 {
        return Err(
            coded_invalid_request(
                ErrorCode::DirectoryQueryInvalid,
                "limit must be 1..=50; choose scan or fields",
            ),
        );
    }
    Ok(())
}

/// The offset at which a directory page resumes.
pub fn directory_offset(cursor: Option<&str>, digest: &str, record_count: usize) -> (r: Result<usize, ToolError>)
    ensures
        match directory_offset_spec(opt_view(cursor), digest@, record_count as nat) {
            Ok(n) => r matches Ok(m) && m == n,
            Err(code) => r matches Err(e) && e.is_coded(code),
        },
{
    let cursor = match cursor {
        None => return Ok(0),
        Some(c) => c,
    };
    let chars = chars_of(cursor);
    let split = match last_index_exec(&chars, ':') {
        None => return Err(coded_invalid_request(ErrorCode::DirectoryCursorInvalid, "Invalid cursor")),
        Some(i) => i,
    };
    let bound = chars_range(&chars, 0, split);
    let offset = chars_range(&chars, split + 1, chars.len());
    assert(bound@ =~= chars@.take(split as int));
    assert(offset@ =~= chars@.skip(split + 1));
    let d = chars_of(digest);
    if !chars_eq(&bound, &d) {
        return Err(
            coded_invalid_request(
                ErrorCode::DirectoryChanged,
                "Directory or selectors changed; repeat without cursor",
            ),
        );
    }
    let n = match parse_usize_chars(&offset) {
        None => return Err(
            coded_invalid_request(ErrorCode::DirectoryCursorInvalid, "Invalid cursor offset"),
        ),
        Some(n) => n,
    };
    if n > record_count {
        return Err(coded_invalid_request(ErrorCode::DirectoryCursorInvalid, "Cursor exceeds directory"));
    }
    Ok(n)
}

/// The cursor that resumes a directory at record `index`.
pub fn directory_cursor(digest: &str, index: usize) -> (s: String)
    ensures
        s@ == search_cursor_spec(digest@, index as nat),
{
    search_cursor(digest, index)
}

/// A directory cursor resumes at its offset while the snapshot digest is
/// unchanged and the offset is within the directory.
pub proof fn lemma_directory_cursor_round_trip(digest: Seq<char>, index: usize, count: nat)
    requires
        index <= count,
    ensures
        directory_offset_spec(Some(search_cursor_spec(digest, index as nat)), digest, count) == Ok::<
            nat,
            ErrorCode,
        >(index as nat),
{
    lemma_decimal_shape(index as nat);
    lemma_rsplit_once_join(digest, ':', decimal(index as nat));
    lemma_parse_usize_decimal(index);
}

} // verus!

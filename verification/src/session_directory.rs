//! The session directory: selectors, the cell a lookup is scoped to, and the
//! page of matching sessions with its continuation.
use crate::cell_search::{fields_ok, search_pattern, search_pattern_spec, validate_fields};
use crate::cursor::stale;
use crate::error::{ErrorCode, ToolError, coded_invalid_request};
use crate::pattern::Pattern;
use crate::limits::MAX_AGENT_RESPONSE_BYTES;
use crate::text::{byte_len, byte_len_of, lemma_seq_lt_asymmetric, lemma_seq_lt_irreflexive, seq_lt, str_eq};
use vstd::prelude::*;

verus! {

broadcast use vstd::string::group_string_axioms;

/// Sessions examined per page, at most.
pub const SESSION_SCAN_LIMIT: usize = 200;

/// The selectors of a session directory read that its checks look at.
#[derive(Clone, Debug)]
pub struct SessionSelectors {
    pub instance_id: String,
    pub query: String,
    pub regex: bool,
    pub case_insensitive: bool,
    pub scan: bool,
    pub fields: Vec<String>,
    pub cursor: String,
    pub limit: u32,
}

/// What checking session selectors yields: fields, then scan with fields, the
/// limit and the cursor's size, then the pattern's source.
pub open spec fn session_check(r: SessionSelectors) -> Result<Seq<char>, ErrorCode> {
    if !fields_ok(r.fields@) {
        Err(ErrorCode::SearchFieldsInvalid)
    } else if (r.scan && r.fields@.len() > 0) || !(1 <= r.limit <= 50) || byte_len(r.cursor@) > 256 {
        Err(ErrorCode::SessionQueryInvalid)
    } else {
        search_pattern_spec(r.query@, r.regex, r.case_insensitive)
    }
}

/// Checks session selectors and compiles the query.
pub fn check_session_list(request: &SessionSelectors) -> (r: Result<Pattern, ToolError>)
    ensures
        match session_check(*request) {
            Ok(source) => r matches Ok(p) && p.source() == source && p.case_insensitive()
                == request.case_insensitive,
            Err(code) => r matches Err(e) && e.is_coded(code),
        },
{
    let fields_checked = validate_fields(&request.fields);
    if let Err(e) = fields_checked {
        return Err(e);
    }
    if request.scan && request.fields.len() > 0 || !(1 <= request.limit && request.limit <= 50)
        || byte_len_of(request.cursor.as_str()) > 256 {
        return Err(
            coded_invalid_request(
                ErrorCode::SessionQueryInvalid,
                "choose scan or fields; limit must be 1..=50 and cursor at most 256 bytes",
            ),
        );
    }
    search_pattern(request.query.as_str(), request.regex, request.case_insensitive)
}

/// The cell a lookup is scoped to: the requested instance, which every named
/// session (exact ID, then overlap) must belong to, else the first session's cell.
pub open spec fn scope_spec(instance: Seq<char>, session_cells: Seq<Seq<char>>) -> Result<Seq<char>, ErrorCode>
    decreases session_cells.len(),
{
    if session_cells.len() == 0 {
        if instance.len() == 0 {
            Err(ErrorCode::SessionScopeRequired)
        } else {
            Ok(instance)
        }
    } else if instance.len() > 0 && instance != session_cells[0] {
        Err(ErrorCode::SessionScopeInvalid)
    } else {
        scope_spec(session_cells[0], session_cells.drop_first())
    }
}

/// Resolves the cell a session lookup is scoped to. `session_cells` are the
/// cells of the sessions named by ID and by overlap, in that order.
pub fn resolve_scope(instance_id: &str, session_cells: &Vec<String>) -> (r: Result<String, ToolError>)
    ensures
        match scope_spec(instance_id@, session_cells@.map_values(|s: String| s@)) {
            Ok(cell) => r matches Ok(s) && s@ == cell,
            Err(code) => r matches Err(e) && e.is_coded(code),
        },
{
    let ghost cells = session_cells@.map_values(|s: String| s@);
    let mut instance = instance_id.to_owned();
    let mut i: usize = 0;
    assert(cells.skip(0) =~= cells);
    while i < session_cells.len()
        invariant
            i <= session_cells@.len(),
            cells == session_cells@.map_values(|s: String| s@),
            scope_spec(instance_id@, cells) == scope_spec(instance@, cells.skip(i as int)),
        decreases session_cells@.len() - i,
    {
        let cell = &session_cells[i];
        assert(cells.skip(i as int)[0] == cell@);
        assert(cells.skip(i as int).drop_first() =~= cells.skip(i + 1));
        if instance.as_str().unicode_len() > 0 && !str_eq(instance.as_str(), cell.as_str()) {
            return Err(
                coded_invalid_request(
                    ErrorCode::SessionScopeInvalid,
                    "session and instance selectors must belong to the same cell",
                ),
            );
        }
        instance = cell.clone();
        i = i + 1;
    }
    if instance.as_str().unicode_len() == 0 {
        return Err(
            coded_invalid_request(
                ErrorCode::SessionScopeRequired,
                "provide instance_id, id, or overlaps_with",
            ),
        );
    }
    Ok(instance)
}

/// A scan summary omits a principal ID longer than 512 bytes.
pub fn principal_omitted(principal_id: &str) -> (r: bool)
    ensures
        r == (byte_len(principal_id@) > 512),
{
    byte_len_of(principal_id) > 512
}

/// Where a session page stands after each examined session.
#[derive(Clone, Debug)]
pub struct SessionPageState {
    /// The last examined session; the page resumes after it.
    pub boundary: String,
    pub scanned: usize,
    pub sessions: usize,
    /// The session after which the continuation resumes, if any.
    pub next_after: Option<String>,
}

/// What examining one session did.
#[derive(Clone, Copy, Debug, PartialEq, Eq, Structural)]
pub enum SessionExamined {
    /// The session does not match the query.
    Miss,
    /// A match that fits the response.
    Kept,
    /// A match that would overflow the response.
    Overflow,
}

/// A session page's state as plain values.
pub struct SessionPageView {
    pub boundary: Seq<char>,
    pub scanned: nat,
    pub sessions: nat,
    pub next_after: Option<Seq<char>>,
}

pub open spec fn page_view(s: SessionPageState) -> SessionPageView {
    SessionPageView {
        boundary: s.boundary@,
        scanned: s.scanned as nat,
        sessions: s.sessions as nat,
        next_after: match s.next_after {
            Some(b) => Some(b@),
            None => None,
        },
    }
}

/// What examining one session does to a page: the new state and whether the
/// page is complete, or the refusal of a match that overflows an empty page.
pub open spec fn session_step_spec(
    s: SessionPageView,
    session_id: Seq<char>,
    examined: SessionExamined,
    more: bool,
    limit: nat,
) -> Result<(SessionPageView, bool), ErrorCode> {
    if examined == SessionExamined::Overflow {
        if s.sessions == 0 {
            Err(ErrorCode::SessionResponseTooLarge)
        } else {
            Ok((SessionPageView { next_after: Some(s.boundary), ..s }, true))
        }
    } else {
        let next = SessionPageView {
            boundary: session_id,
            scanned: s.scanned + 1,
            sessions: s.sessions + if examined == SessionExamined::Kept {
                1nat
            } else {
                0nat
            },
            next_after: if more {
                Some(session_id)
            } else {
                None
            },
        };
        Ok((next, next.sessions >= limit || next.scanned >= SESSION_SCAN_LIMIT))
    }
}

/// A page built over candidate sessions `ids`, in order, each examined as
/// `examined` says: the final state and how many candidates the page took in,
/// or the refusal.
pub open spec fn session_page_run(
    s: SessionPageView,
    ids: Seq<Seq<char>>,
    examined: Seq<SessionExamined>,
    limit: nat,
) -> Result<(SessionPageView, nat), ErrorCode>
    decreases ids.len(),
{
    if ids.len() == 0 {
        Ok((s, 0))
    } else {
        match session_step_spec(s, ids[0], examined[0], ids.len() > 1, limit) {
            Err(code) => Err(code),
            Ok((next, done)) => if done {
                Ok((
                    next,
                    if examined[0] == SessionExamined::Overflow {
                        0nat
                    } else {
                        1nat
                    },
                ))
            } else {
                match session_page_run(next, ids.drop_first(), examined.drop_first(), limit) {
                    Err(code) => Err(code),
                    Ok((last, taken)) => Ok((last, taken + 1)),
                }
            },
        }
    }
}

/// Paging a session directory loses and repeats no session: a page that starts
/// empty and takes in the first `k` candidates ends with a continuation naming
/// exactly the `k`-th of them, with a candidate still after it, so the next page, which
/// resumes after that session, starts at the first candidate not taken in;
/// a page without continuation took in every candidate.
pub proof fn lemma_session_paging_resumes(
    s: SessionPageView,
    ids: Seq<Seq<char>>,
    examined: Seq<SessionExamined>,
    limit: nat,
)
    requires
        examined.len() == ids.len(),
        s.sessions == 0,
        s.next_after is None,
    ensures
        session_page_run(s, ids, examined, limit) matches Ok((last, taken)) ==> {
            &&& taken <= ids.len()
            &&& last.scanned == s.scanned + taken
            &&& (last.next_after matches Some(b) ==> 1 <= taken < ids.len() && b == ids[taken - 1])
            &&& (last.next_after is None ==> taken == ids.len())
        },
    decreases ids.len(),
{
    if ids.len() > 0 {
        match session_step_spec(s, ids[0], examined[0], ids.len() > 1, limit) {
            Err(_) => {},
            Ok((next, done)) => {
                if !done {
                    lemma_session_paging_continues(next, ids.drop_first(), examined.drop_first(), limit, ids[0]);
                }
            },
        }
    }
}

/// The same, for a page that has already taken in a session `previous`
/// before these candidates.
proof fn lemma_session_paging_continues(
    s: SessionPageView,
    ids: Seq<Seq<char>>,
    examined: Seq<SessionExamined>,
    limit: nat,
    previous: Seq<char>,
)
    requires
        examined.len() == ids.len(),
        s.boundary == previous,
        ids.len() > 0 ==> s.next_after == Some(previous),
        ids.len() == 0 ==> s.next_after is None,
    ensures
        session_page_run(s, ids, examined, limit) matches Ok((last, taken)) ==> {
            &&& taken <= ids.len()
            &&& last.scanned == s.scanned + taken
            &&& (last.next_after matches Some(b) ==> taken < ids.len() && b == (if taken == 0 {
                previous
            } else {
                ids[taken - 1]
            }))
            &&& (last.next_after is None ==> taken == ids.len())
        },
    decreases ids.len(),
{
    if ids.len() > 0 {
        match session_step_spec(s, ids[0], examined[0], ids.len() > 1, limit) {
            Err(_) => {},
            Ok((next, done)) => {
                if !done {
                    lemma_session_paging_continues(next, ids.drop_first(), examined.drop_first(), limit, ids[0]);
                }
            },
        }
    }
}

/// The page state before the first session.
pub fn session_page_start(boundary: String) -> (s: SessionPageState)
    ensures
        s.boundary == boundary,
        s.scanned == 0,
        s.sessions == 0,
        s.next_after is None,
{
    SessionPageState { boundary, scanned: 0, sessions: 0, next_after: None }
}

/// Advances the page past one session; `more` says whether another candidate
/// follows it. Returns whether the page is complete. A match that overflows an
/// empty page is refused; otherwise the page stops and resumes at the boundary.
pub fn session_step(
    state: &mut SessionPageState,
    session_id: &str,
    examined: SessionExamined,
    more: bool,
    limit: u32,
) -> (r: Result<bool, ToolError>)
    requires
        old(state).scanned < SESSION_SCAN_LIMIT,
        old(state).sessions < limit,
    ensures
        match session_step_spec(page_view(*old(state)), session_id@, examined, more, limit as nat) {
            Err(code) => r matches Err(e) && e.is_coded(code),
            Ok((next, done)) => r == Ok::<bool, ToolError>(done) && page_view(*final(state)) == next,
        },
{
    if examined == SessionExamined::Overflow {
        if state.sessions == 0 {
            return Err(
                coded_invalid_request(
                    ErrorCode::SessionResponseTooLarge,
                    "one session exceeds the response budget; use scan or select smaller fields",
                ),
            );
        }
        state.next_after = Some(state.boundary.clone());
        return Ok(true);
    }
    if examined == SessionExamined::Kept {
        state.sessions = state.sessions + 1;
    }
    state.boundary = session_id.to_owned();
    state.scanned = state.scanned + 1;
    state.next_after = if more {
        Some(session_id.to_owned())
    } else {
        None
    };
    Ok(state.sessions >= limit as usize || state.scanned >= SESSION_SCAN_LIMIT)
}

/// The candidates kept on the page among the first `j` examined.
pub open spec fn kept_before(examined: Seq<SessionExamined>, j: int) -> Seq<usize>
    decreases j,
{
    if j <= 0 {
        Seq::empty()
    } else {
        let before = kept_before(examined, j - 1);
        if examined[j - 1] == SessionExamined::Kept {
            before.push((j - 1) as usize)
        } else {
            before
        }
    }
}

/// How candidate `j` was examined, as measured: a miss did not match; a kept
/// or overflowing match was measured on the page holding the sessions kept so
/// far and it, leaving at least 64 bytes of the budget or not.
pub open spec fn examined_as<M: Fn(usize) -> bool, S: Fn(&Vec<usize>) -> usize>(
    matches: M,
    size_with: S,
    examined: Seq<SessionExamined>,
    j: int,
) -> bool {
    match examined[j] {
        SessionExamined::Miss => matches.ensures((j as usize,), false),
        SessionExamined::Kept => matches.ensures((j as usize,), true) && exists|v: Vec<usize>, s: usize|
            v@ == kept_before(examined, j).push(j as usize) && #[trigger] size_with.ensures((&v,), s) && s + 64
                <= MAX_AGENT_RESPONSE_BYTES,
        SessionExamined::Overflow => matches.ensures((j as usize,), true) && exists|v: Vec<usize>, s: usize|
            v@ == kept_before(examined, j).push(j as usize) && #[trigger] size_with.ensures((&v,), s) && s + 64
                > MAX_AGENT_RESPONSE_BYTES,
    }
}

/// A page run's result with `j` more candidates counted as taken.
pub open spec fn shifted(r: Result<(SessionPageView, nat), ErrorCode>, j: nat) -> Result<(SessionPageView, nat), ErrorCode> {
    match r {
        Ok((v, t)) => Ok((v, t + j)),
        Err(code) => Err(code),
    }
}

pub open spec fn session_ids(ids: Seq<String>) -> Seq<Seq<char>> {
    ids.map_values(|s: String| s@)
}

pub open spec fn empty_page(boundary: Seq<char>) -> SessionPageView {
    SessionPageView { boundary, scanned: 0, sessions: 0, next_after: None }
}

/// Builds one page of the session directory over the candidate sessions after
/// the cursor's boundary, in directory order: each candidate is matched, a
/// match is kept while the page holding it leaves 64 bytes of the budget, and
/// the page stops at `limit` sessions or 200 examined. `matches(j)` says
/// whether candidate `j` matches the query; `size_with(kept)` is the wire size
/// of the page holding those candidates. Returns the page state and the kept
/// candidates; the page is `session_page_run` over what was examined.
pub fn session_page<M: Fn(usize) -> bool, S: Fn(&Vec<usize>) -> usize>(
    boundary: String,
    ids: &Vec<String>,
    matches: M,
    size_with: S,
    limit: u32,
) -> (r: Result<(SessionPageState, Vec<usize>), ToolError>)
    requires
        1 <= limit,
        forall|j: usize| matches.requires((j,)),
        forall|v: &Vec<usize>| size_with.requires((v,)),
    ensures
        exists|examined: Seq<SessionExamined>, m: int|
            #![trigger session_page_run(empty_page(boundary@), session_ids(ids@), examined, limit as nat), kept_before(examined, m)]
            {
                &&& examined.len() == ids@.len()
                &&& 0 <= m <= ids@.len()
                &&& forall|k: int| 0 <= k < m ==> #[trigger] examined_as(matches, size_with, examined, k)
                &&& match r {
                    Ok((page, kept)) => {
                        &&& session_page_run(empty_page(boundary@), session_ids(ids@), examined, limit as nat)
                            == Ok::<(SessionPageView, nat), ErrorCode>((page_view(page), page.scanned as nat))
                        &&& kept@ == kept_before(examined, m)
                    },
                    Err(e) => session_page_run(empty_page(boundary@), session_ids(ids@), examined, limit as nat)
                        matches Err(code) && e.is_coded(code),
                }
            },
{
    let ghost start = empty_page(boundary@);
    let ghost ids_v = session_ids(ids@);
    let mut state = session_page_start(boundary);
    let mut kept: Vec<usize> = Vec::new();
    let ghost mut ex: Seq<SessionExamined> = Seq::empty();
    let n = ids.len();
    let mut j: usize = 0;
    proof {
        assert forall|rest: Seq<SessionExamined>| rest.len() == n - 0 implies #[trigger] session_page_run(
            start,
            ids_v,
            ex + rest,
            limit as nat,
        ) == shifted(session_page_run(page_view(state), ids_v.skip(0), rest, limit as nat), 0) by {
            assert(ex + rest =~= rest);
            assert(ids_v.skip(0) =~= ids_v);
            assert(page_view(state) == start);
        }
    }
    while j < n
        invariant
            n == ids@.len(),
            ids_v == session_ids(ids@),
            start == empty_page(boundary@),
            ids_v.len() == n,
            j <= n,
            ex.len() == j,
            kept@ == kept_before(ex, j as int),
            state.sessions == kept@.len(),
            state.scanned == j,
            state.scanned < SESSION_SCAN_LIMIT,
            state.sessions < limit,
            forall|k: int| 0 <= k < j ==> #[trigger] examined_as(matches, size_with, ex, k),
            forall|j2: usize| matches.requires((j2,)),
            forall|v: &Vec<usize>| size_with.requires((v,)),
            forall|rest: Seq<SessionExamined>|
                rest.len() == n - j ==> #[trigger] session_page_run(start, ids_v, ex + rest, limit as nat) == shifted(
                    session_page_run(page_view(state), ids_v.skip(j as int), rest, limit as nat),
                    j as nat,
                ),
        decreases n - j,
    {
        let ghost before = page_view(state);
        let ghost ex_before = ex;
        let is_match = matches(j);
        let e = if !is_match {
            SessionExamined::Miss
        } else {
            kept.push(j);
            let size = size_with(&kept);
            if size > MAX_AGENT_RESPONSE_BYTES - 64 {
                kept.pop();
                SessionExamined::Overflow
            } else {
                SessionExamined::Kept
            }
        };
        proof {
            ex = ex.push(e);
            assert(kept_before(ex, j as int) == kept_before(ex_before, j as int)) by {
                lemma_kept_before_prefix(ex_before, ex, j as int);
            }
            assert(examined_as(matches, size_with, ex, j as int));
            assert forall|k: int| 0 <= k < j + 1 implies #[trigger] examined_as(matches, size_with, ex, k) by {
                if k < j {
                    lemma_kept_before_prefix(ex_before, ex, k);
                    assert(examined_as(matches, size_with, ex_before, k));
                }
            }
        }
        let more = j + 1 < n;
        let step = session_step(&mut state, ids[j].as_str(), e, more, limit);
        proof {
            let rest = Seq::<SessionExamined>::new((n - j) as nat, |i: int| if i == 0 { e } else { SessionExamined::Miss });
            assert(ids_v.skip(j as int)[0] == ids_v[j as int]);
            assert(ids_v[j as int] == ids@[j as int]@);
            assert(ids_v.skip(j as int).len() > 1 <==> more);
            assert(session_page_run(start, ids_v, ex_before + rest, limit as nat) == shifted(
                session_page_run(before, ids_v.skip(j as int), rest, limit as nat),
                j as nat,
            ));
        }
        match step {
            Err(err) => {
                proof {
                    let rest = Seq::<SessionExamined>::new((n - j) as nat, |i: int| if i == 0 { e } else { SessionExamined::Miss });
                    let full = ex_before + rest;
                    assert(session_page_run(start, ids_v, full, limit as nat) == shifted(
                        session_page_run(before, ids_v.skip(j as int), rest, limit as nat),
                        j as nat,
                    ));
                    assert(full.len() == ids@.len());
                    assert forall|k: int| 0 <= k < j + 1 implies #[trigger] examined_as(matches, size_with, full, k) by {
                        lemma_kept_before_prefix(ex, full, k);
                        assert(examined_as(matches, size_with, ex, k));
                        assert(full[k] == ex[k]);
                    }
                    lemma_kept_before_prefix(ex, full, (j + 1) as int);
                    assert(rest[0] == e);
                    assert(session_step_spec(before, ids_v.skip(j as int)[0], rest[0], ids_v.skip(j as int).len() > 1, limit as nat) is Err);
                    assert(session_page_run(before, ids_v.skip(j as int), rest, limit as nat) is Err);
                    assert(session_page_run(start, ids_v, full, limit as nat) matches Err(code) && err.is_coded(code));
                    assert(session_page_run(empty_page(boundary@), session_ids(ids@), full, limit as nat) matches Err(code)
                        && err.is_coded(code));
                    assert(forall|k: int| 0 <= k < (j + 1) as int ==> #[trigger] examined_as(matches, size_with, full, k));
                    assert(kept_before(full, (j + 1) as int) == kept_before(full, (j + 1) as int));
                }
                return Err(err);
            },
            Ok(done) => {
                proof {
                    assert forall|rest2: Seq<SessionExamined>| rest2.len() == n - (j + 1) implies #[trigger] session_page_run(
                        start,
                        ids_v,
                        ex + rest2,
                        limit as nat,
                    ) == (if done {
                        Ok::<(SessionPageView, nat), ErrorCode>((page_view(state), if e == SessionExamined::Overflow { j as nat } else { (j + 1) as nat }))
                    } else {
                        shifted(session_page_run(page_view(state), ids_v.skip(j + 1), rest2, limit as nat), (j + 1) as nat)
                    }) by {
                        let rest = seq![e] + rest2;
                        assert(ex_before + rest =~= ex + rest2);
                        assert(session_page_run(start, ids_v, ex_before + rest, limit as nat) == shifted(
                            session_page_run(before, ids_v.skip(j as int), rest, limit as nat),
                            j as nat,
                        ));
                        assert(rest[0] == e);
                        assert(rest.drop_first() =~= rest2);
                        assert(ids_v.skip(j as int).drop_first() =~= ids_v.skip(j + 1));
                    }
                }
                if done {
                    proof {
                        let rest2 = Seq::<SessionExamined>::new((n - (j + 1)) as nat, |i: int| SessionExamined::Miss);
                        let full = ex + rest2;
                        assert(full.len() == ids@.len());
                        assert forall|k: int| 0 <= k < j + 1 implies #[trigger] examined_as(matches, size_with, full, k) by {
                            lemma_kept_before_prefix(ex, full, k);
                            assert(examined_as(matches, size_with, ex, k));
                            assert(full[k] == ex[k]);
                        }
                        lemma_kept_before_prefix(ex, full, (j + 1) as int);
                        assert(kept@ == kept_before(ex, (j + 1) as int));
                        assert(kept@ == kept_before(full, (j + 1) as int));
                        assert(e == SessionExamined::Overflow ==> state.scanned == j);
                        assert(e != SessionExamined::Overflow ==> state.scanned == j + 1);
                        assert(session_page_run(start, ids_v, full, limit as nat) == Ok::<(SessionPageView, nat), ErrorCode>((page_view(state), state.scanned as nat)));
                        assert(session_page_run(empty_page(boundary@), session_ids(ids@), full, limit as nat) == Ok::<
                            (SessionPageView, nat),
                            ErrorCode,
                        >((page_view(state), state.scanned as nat)));
                        assert(forall|k: int| 0 <= k < (j + 1) as int ==> #[trigger] examined_as(matches, size_with, full, k));
                    }
                    return Ok((state, kept));
                }
            },
        }
        j = j + 1;
    }
    proof {
        let empty = Seq::<SessionExamined>::empty();
        assert(ex + empty =~= ex);
        assert(ids_v.skip(n as int).len() == 0);
        assert(session_page_run(start, ids_v, ex + empty, limit as nat) == shifted(
            session_page_run(page_view(state), ids_v.skip(n as int), empty, limit as nat),
            n as nat,
        ));
    }
    Ok((state, kept))
}

/// Kept candidates among the first `j` depend only on those `j` examinations.
proof fn lemma_kept_before_prefix(a: Seq<SessionExamined>, b: Seq<SessionExamined>, j: int)
    requires
        0 <= j <= a.len(),
        j <= b.len(),
        forall|k: int| 0 <= k < j ==> a[k] == b[k],
    ensures
        kept_before(a, j) == kept_before(b, j),
    decreases j,
{
    if j > 0 {
        lemma_kept_before_prefix(a, b, j - 1);
    }
}

/// A page is answered only if the directory's observation digest did not
/// change while it was built; otherwise the cursor is stale.
pub fn check_session_snapshot(before: &str, after: &str) -> (r: Result<(), ToolError>)
    ensures
        r is Ok <==> before@ == after@,
        r matches Err(e) ==> e.is_coded(ErrorCode::SessionCursorInvalid),
{
    if str_eq(before, after) {
        Ok(())
    } else {
        Err(stale())
    }
}

/// The directory's session IDs strictly increase.
pub open spec fn directory_ordered(ids: Seq<Seq<char>>) -> bool {
    forall|i: int, j: int| 0 <= i < j < ids.len() ==> seq_lt(ids[i], ids[j])
}

/// The position of the first session after the boundary.
pub open spec fn first_after_id(ids: Seq<Seq<char>>, boundary: Seq<char>) -> nat
    decreases ids.len(),
{
    if ids.len() == 0 {
        0
    } else if seq_lt(boundary, ids[0]) {
        0
    } else {
        1 + first_after_id(ids.drop_first(), boundary)
    }
}

/// Whether `examined` are the examinations of directory pages followed from
/// `boundary`: each page runs over the sessions after its boundary and the
/// next page starts after the session the previous one's continuation names.
pub open spec fn directory_pages_follow(
    ids: Seq<Seq<char>>,
    boundary: Seq<char>,
    examined: Seq<Seq<SessionExamined>>,
    limit: nat,
) -> bool
    decreases examined.len(),
{
    let rest = ids.skip(first_after_id(ids, boundary) as int);
    &&& examined.len() > 0
    &&& examined[0].len() == rest.len()
    &&& match session_page_run(empty_page(boundary), rest, examined[0], limit) {
        Ok((last, _)) => match last.next_after {
            None => examined.len() == 1,
            Some(b) => examined.len() > 1 && directory_pages_follow(ids, b, examined.drop_first(), limit),
        },
        Err(_) => false,
    }
}

/// The sessions those pages take in, one page after the other.
pub open spec fn directory_pages_listing(
    ids: Seq<Seq<char>>,
    boundary: Seq<char>,
    examined: Seq<Seq<SessionExamined>>,
    limit: nat,
) -> Seq<Seq<char>>
    decreases examined.len(),
{
    if examined.len() == 0 {
        Seq::empty()
    } else {
        let rest = ids.skip(first_after_id(ids, boundary) as int);
        match session_page_run(empty_page(boundary), rest, examined[0], limit) {
            Ok((last, taken)) => match last.next_after {
                Some(b) => rest.take(taken as int) + directory_pages_listing(ids, b, examined.drop_first(), limit),
                None => rest.take(taken as int),
            },
            Err(_) => Seq::empty(),
        }
    }
}

proof fn lemma_first_after_id_bounds(ids: Seq<Seq<char>>, boundary: Seq<char>)
    ensures
        first_after_id(ids, boundary) <= ids.len(),
        forall|i: int| 0 <= i < first_after_id(ids, boundary) ==> !seq_lt(boundary, #[trigger] ids[i]),
        first_after_id(ids, boundary) < ids.len() ==> seq_lt(boundary, ids[first_after_id(ids, boundary) as int]),
    decreases ids.len(),
{
    if ids.len() > 0 && !seq_lt(boundary, ids[0]) {
        lemma_first_after_id_bounds(ids.drop_first(), boundary);
        assert forall|i: int| 0 <= i < first_after_id(ids, boundary) implies !seq_lt(boundary, #[trigger] ids[i]) by {
            if i > 0 {
                assert(ids[i] == ids.drop_first()[i - 1]);
            }
        }
    }
}

proof fn lemma_first_after_id_at(ids: Seq<Seq<char>>, k: int)
    requires
        directory_ordered(ids),
        0 <= k < ids.len(),
    ensures
        first_after_id(ids, ids[k]) == k + 1,
{
    lemma_first_after_id_bounds(ids, ids[k]);
    let p = first_after_id(ids, ids[k]) as int;
    if p <= k {
        assert(p < ids.len());
        assert(seq_lt(ids[k], ids[p]));
        if p < k {
            assert(seq_lt(ids[p], ids[k]));
            lemma_seq_lt_asymmetric(ids[p], ids[k]);
        } else {
            lemma_seq_lt_irreflexive(ids[k]);
        }
    }
    if p > k + 1 {
        assert(!seq_lt(ids[k], ids[k + 1]));
    }
}

/// Paging an ordered session directory from a boundary loses and repeats no
/// session: following each page's continuation to the next page, the pages
/// take in every session after the boundary exactly once, in directory order.
pub proof fn lemma_directory_pages_list_every_session(
    ids: Seq<Seq<char>>,
    boundary: Seq<char>,
    examined: Seq<Seq<SessionExamined>>,
    limit: nat,
)
    requires
        directory_ordered(ids),
        directory_pages_follow(ids, boundary, examined, limit),
    ensures
        directory_pages_listing(ids, boundary, examined, limit) == ids.skip(first_after_id(ids, boundary) as int),
    decreases examined.len(),
{
    lemma_first_after_id_bounds(ids, boundary);
    let p = first_after_id(ids, boundary) as int;
    let rest = ids.skip(p);
    lemma_session_paging_resumes(empty_page(boundary), rest, examined[0], limit);
    match session_page_run(empty_page(boundary), rest, examined[0], limit) {
        Ok((last, taken)) => match last.next_after {
            None => {
                assert(rest.take(taken as int) =~= rest);
            },
            Some(b) => {
                assert(b == ids[p + taken - 1]);
                lemma_first_after_id_at(ids, p + taken - 1);
                lemma_directory_pages_list_every_session(ids, b, examined.drop_first(), limit);
                assert(rest.take(taken as int) + ids.skip(p + taken) =~= rest);
            },
        },
        Err(_) => {},
    }
}

} // verus!

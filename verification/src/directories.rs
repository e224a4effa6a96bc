//! Build and run directories: selectors, records sorted by ID and filtered,
//! and a page that fits the budget with room to spare.
use crate::by_id::{Identified, lemma_sorted_selection, sort_by_id, sort_by_id_exec};
use crate::cell_search::{fields_ok, search_pattern, search_pattern_spec, validate_fields};
use crate::cursor::{directory_cursor, validate_directory_query};
use crate::cursor::search_cursor_spec;
use crate::error::{ErrorCode, ToolError, coded_invalid_request};
use crate::limits::MAX_AGENT_RESPONSE_BYTES;
use crate::pattern::Pattern;
use crate::requests::DirectoryQuery;
use crate::text::str_eq;
use crate::text::opt_string;
use vstd::prelude::*;

verus! {

broadcast use vstd::string::group_string_axioms;

/// One directory record: its ID, owner and phase when recorded, and its compact JSON.
#[derive(Clone, Debug)]
pub struct DirectoryRecord {
    pub id: String,
    pub owner: Option<String>,
    pub phase: Option<String>,
    pub text: String,
}

impl Identified for DirectoryRecord {
    open spec fn key(&self) -> Seq<char> {
        self.id@
    }

    fn id_str(&self) -> (r: &str) {
        self.id.as_str()
    }
}

/// What checking directory selectors yields: fields, limit and scan, then the pattern's source.
pub open spec fn directory_check(q: DirectoryQuery) -> Result<Seq<char>, ErrorCode> {
    if !fields_ok(q.fields@) {
        Err(ErrorCode::SearchFieldsInvalid)
    } else if !(1 <= q.limit <= 50) || (q.scan && q.fields@.len() > 0) {
        Err(ErrorCode::DirectoryQueryInvalid)
    } else {
        search_pattern_spec(q.query@, q.regex, q.case_insensitive)
    }
}

/// Checks directory selectors and compiles the query.
pub fn check_directory_query(query: &DirectoryQuery) -> (r: Result<Pattern, ToolError>)
    ensures
        match directory_check(*query) {
            Ok(source) => r matches Ok(p) && p.source() == source && p.case_insensitive()
                == query.case_insensitive,
            Err(code) => r matches Err(e) && e.is_coded(code),
        },
{
    let fields_checked = validate_fields(&query.fields);
    if let Err(e) = fields_checked {
        return Err(e);
    }
    let checked = validate_directory_query(query.limit, query.scan, query.fields.len());
    if let Err(e) = checked {
        return Err(e);
    }
    search_pattern(query.query.as_str(), query.regex, query.case_insensitive)
}

/// Whether a record passes the ID, owner and phase selectors and the pattern.
pub open spec fn record_selected(r: DirectoryRecord, q: DirectoryQuery, p: Pattern) -> bool {
    &&& q.id matches Some(id) ==> r.id@ == id@
    &&& q.owner matches Some(o) ==> opt_string(r.owner) == Some(o@)
    &&& q.phase matches Some(ph) ==> opt_string(r.phase) == Some(ph@)
    &&& p.matches(r.text@)
}

/// The selected records, sorted by ID.
pub open spec fn selected_records(rs: Seq<DirectoryRecord>, q: DirectoryQuery, p: Pattern) -> Seq<
    DirectoryRecord,
> {
    sort_by_id(rs).filter(|r: DirectoryRecord| record_selected(r, q, p))
}

fn opt_matches(want: &Option<String>, have: &Option<String>) -> (r: bool)
    ensures
        r == (want matches Some(w) ==> opt_string(*have) == Some(w@)),
{
    match want {
        None => true,
        Some(w) => match have {
            Some(h) => str_eq(h.as_str(), w.as_str()),
            None => false,
        },
    }
}

/// Sorts records by ID and keeps those the selectors and pattern select.
pub fn select_records(records: Vec<DirectoryRecord>, query: &DirectoryQuery, pattern: &Pattern) -> (r:
    Vec<DirectoryRecord>)
    ensures
        r@ == selected_records(records@, *query, *pattern),
        forall|k: int|
            0 <= k < r@.len() ==> records@.contains(#[trigger] r@[k]) && record_carries(r@[k], *query)
                && pattern.matches(r@[k].text@),
        forall|i: int|
            0 <= i < records@.len() && record_carries(#[trigger] records@[i], *query) && pattern.matches(
                records@[i].text@,
            ) ==> r@.contains(records@[i]),
{
    proof {
        lemma_directory_selection(records@, *query, *pattern);
    }
    let sorted = sort_by_id_exec(records);
    let ghost pred = |r: DirectoryRecord| record_selected(r, *query, *pattern);
    let mut out: Vec<DirectoryRecord> = Vec::new();
    let mut rest = sorted;
    let ghost all = rest@;
    let n = rest.len();
    let mut i: usize = 0;
    assert(all.take(0).filter(pred) =~= Seq::<DirectoryRecord>::empty()) by {
        reveal(Seq::filter);
    }
    assert(all.skip(0) =~= all);
    while rest.len() > 0
        invariant
            i <= all.len(),
            all.len() == n,
            rest@ == all.skip(i as int),
            out@ == all.take(i as int).filter(pred),
            pred == (|r: DirectoryRecord| record_selected(r, *query, *pattern)),
        decreases rest@.len(),
    {
        let rec = rest.remove(0);
        let id_ok = match &query.id {
            Some(id) => str_eq(rec.id.as_str(), id.as_str()),
            None => true,
        };
        let keep = id_ok && opt_matches(&query.owner, &rec.owner) && opt_matches(
            &query.phase,
            &rec.phase,
        ) && pattern.is_match(rec.text.as_str());
        proof {
            reveal(Seq::filter);
            assert(all.take(i + 1).drop_last() =~= all.take(i as int));
            assert(all.take(i + 1).last() == rec);
        }
        if keep {
            out.push(rec);
        }
        assert(rest@ =~= all.skip(i + 1));
        i = i + 1;
    }
    assert(all.take(i as int) =~= all);
    out
}

/// The continuation after a page ending at `end`: that offset while records remain.
pub open spec fn continuation(end: int, count: int) -> Option<usize> {
    if end < count {
        Some(end as usize)
    } else {
        None
    }
}

/// Whether the page ending at `end` leaves less than 2048 bytes of the budget
/// (as measured with its continuation).
pub open spec fn page_crowded<F: Fn(usize, Option<usize>) -> usize>(size_with: F, end: usize, count: nat) -> bool {
    exists|s: usize| #[trigger] size_with.ensures((end, continuation(end as int, count as int)), s) && s + 2048
        > MAX_AGENT_RESPONSE_BYTES
}

/// Whether the page ending at `end` was measured and leaves at least 2048 bytes.
pub open spec fn page_roomy<F: Fn(usize, Option<usize>) -> usize>(size_with: F, end: usize, count: nat) -> bool {
    exists|s: usize| #[trigger] size_with.ensures((end, continuation(end as int, count as int)), s) && s + 2048
        <= MAX_AGENT_RESPONSE_BYTES
}

/// Fills a directory page from `offset` with up to `limit` records. After each
/// record `size_with(end, next)` is the wire size of the page holding records
/// `offset..end` with continuation offset `next`; a page that leaves less than
/// 2048 bytes of the budget drops its last record and continues at it.
/// Returns the page end and the continuation offset.
pub fn fill_directory_page<F: Fn(usize, Option<usize>) -> usize>(
    offset: usize,
    limit: usize,
    count: usize,
    size_with: F,
) -> (r: Result<(usize, Option<usize>), ToolError>)
    requires
        offset <= count,
        1 <= limit,
        forall|e: usize, n: Option<usize>| size_with.requires((e, n)),
    ensures
        match r {
            Ok((end, next)) => {
                &&& offset <= end <= count
                &&& end - offset <= limit
                &&& end > offset || offset == count
                &&& next == (if end < count { Some(end) } else { None::<usize> })
                &&& forall|e: usize| offset < e <= end ==> #[trigger] page_roomy(size_with, e, count as nat)
                &&& (end - offset < limit && end < count) ==> page_crowded(
                    size_with,
                    (end + 1) as usize,
                    count as nat,
                )
            },
            Err(e) => {
                &&& e.is_coded(ErrorCode::DirectoryValueTooLarge)
                &&& offset < count
                &&& page_crowded(size_with, (offset + 1) as usize, count as nat)
            },
        },
{
    let stop: usize = if limit < count - offset {
        offset + limit
    } else {
        count
    };
    let mut end = offset;
    while end < stop
        invariant
            offset <= end <= stop,
            stop <= count,
            stop - offset <= limit,
            stop == offset + limit || stop == count,
            forall|e: usize| offset < e <= end ==> #[trigger] page_roomy(size_with, e, count as nat),
            forall|e: usize, n: Option<usize>| size_with.requires((e, n)),
        decreases stop - end,
    {
        let next: Option<usize> = if end + 1 < count {
            Some(end + 1)
        } else {
            None
        };
        let size = size_with(end + 1, next);
        if size > MAX_AGENT_RESPONSE_BYTES - 2048 {
            assert(next == continuation(end + 1, count as int));
            assert(page_crowded(size_with, (end + 1) as usize, count as nat));
            if end == offset {
                return Err(
                    coded_invalid_request(
                        ErrorCode::DirectoryValueTooLarge,
                        "Select scan=true or smaller fields",
                    ),
                );
            }
            assert(next == continuation(end + 1, count as int));
            assert(page_crowded(size_with, (end + 1) as usize, count as nat));
            return Ok((end, Some(end)));
        }
        assert(next == continuation(end + 1, count as int));
        assert(page_roomy(size_with, (end + 1) as usize, count as nat));
        end = end + 1;
    }
    Ok((end, if end < count { Some(end) } else { None }))
}

/// Whether a record carries every value the query's ID, owner and phase
/// selectors name.
pub open spec fn record_carries(r: DirectoryRecord, q: DirectoryQuery) -> bool {
    &&& (q.id matches Some(id) ==> r.id@ == id@)
    &&& (q.owner matches Some(o) ==> r.owner matches Some(w) && w@ == o@)
    &&& (q.phase matches Some(ph) ==> r.phase matches Some(v) && v@ == ph@)
}

/// A directory lists exactly the records its selectors pick: every listed
/// record is one of the records, has the selected ID, owner and phase and
/// matches the query; and every record that has them and matches is listed.
pub proof fn lemma_directory_selection(rs: Seq<DirectoryRecord>, q: DirectoryQuery, p: Pattern)
    ensures
        forall|k: int|
            0 <= k < selected_records(rs, q, p).len() ==> {
                let r = #[trigger] selected_records(rs, q, p)[k];
                &&& rs.contains(r)
                &&& record_carries(r, q)
                &&& p.matches(r.text@)
            },
        forall|i: int|
            0 <= i < rs.len() && record_carries(#[trigger] rs[i], q) && p.matches(rs[i].text@)
                ==> selected_records(rs, q, p).contains(rs[i]),
{
    let pred = |r: DirectoryRecord| record_selected(r, q, p);
    lemma_sorted_selection(rs, pred);
    assert forall|k: int| 0 <= k < selected_records(rs, q, p).len() implies {
        let r = #[trigger] selected_records(rs, q, p)[k];
        &&& rs.contains(r)
        &&& record_carries(r, q)
        &&& p.matches(r.text@)
    } by {
        let r = selected_records(rs, q, p)[k];
        assert(pred(r));
    }
    assert forall|i: int|
        0 <= i < rs.len() && record_carries(#[trigger] rs[i], q) && p.matches(rs[i].text@) implies selected_records(
        rs,
        q,
        p,
    ).contains(rs[i]) by {
        assert(pred(rs[i]));
    }
}

} // verus!

//! Searching a cell's stored topology: exact ID and text filters, a page of
//! consecutive matches that fits the response budget, and its continuation.
use crate::cursor::{
    invalid_cursor, lemma_search_cursor_round_trip, search_cursor, search_cursor_spec, search_start_spec,
};
use crate::error::{ErrorCode, ToolError, coded_invalid_request};
use crate::limits::MAX_AGENT_RESPONSE_BYTES;
use crate::pattern::{Pattern, escaped, regex_compiles};
use crate::pointer::{escapes_ok, pointer_ok, validate_pointer};
use crate::json::Json;
use crate::requests::{CellSearchRequest, CellSearchSection};
use crate::text::{byte_len, byte_len_of, decimal, push_char, render_u64, str_eq};
use crate::text::opt_view;
use vstd::prelude::*;

verus! {

broadcast use vstd::string::group_string_axioms;

/// The default page size: 20 matches.
pub fn default_limit() -> (r: usize)
    ensures
        r == 20,
{
    20
}

/// Compile-size limit of search patterns: 1 MiB.
pub const PATTERN_SIZE_LIMIT: usize = 1048576;

/// A field selector is a valid pointer of at most 512 bytes; at most 16 of them.
pub open spec fn fields_ok(fields: Seq<String>) -> bool {
    &&& fields.len() <= 16
    &&& forall|i: int| 0 <= i < fields.len() ==> pointer_ok(#[trigger] fields[i]@) && byte_len(fields[i]@) <= 512
}

/// Checks field selectors: at most 16 valid pointers of at most 512 bytes each.
pub fn validate_fields(fields: &Vec<String>) -> (r: Result<(), ToolError>)
    ensures
        r is Ok <==> fields_ok(fields@),
        r matches Err(e) ==> e.is_coded(ErrorCode::SearchFieldsInvalid),
{
    if fields.len() > 16 {
        return Err(coded_invalid_request(ErrorCode::SearchFieldsInvalid, "select at most 16 fields"));
    }
    let mut i: usize = 0;
    while i < fields.len()
        invariant
            i <= fields@.len(),
            forall|k: int| 0 <= k < i ==> pointer_ok(#[trigger] fields@[k]@) && byte_len(fields@[k]@) <= 512,
        decreases fields@.len() - i,
    {
        let f = fields[i].as_str();
        if byte_len_of(f) > 512 || validate_pointer(f).is_err() {
            return Err(
                coded_invalid_request(
                    ErrorCode::SearchFieldsInvalid,
                    "each field must be an RFC 6901 pointer of at most 512 bytes",
                ),
            );
        }
        i = i + 1;
    }
    Ok(())
}

/// What compiling a search query yields: too long, does not compile, or the pattern's source.
pub open spec fn search_pattern_spec(query: Seq<char>, regex: bool, case_insensitive: bool) -> Result<
    Seq<char>,
    ErrorCode,
> {
    let source = if regex {
        query
    } else {
        escaped(query)
    };
    if byte_len(query) > 4096 {
        Err(ErrorCode::SearchQueryInvalid)
    } else if !regex_compiles(source, case_insensitive, PATTERN_SIZE_LIMIT) {
        Err(ErrorCode::SearchRegexInvalid)
    } else {
        Ok(source)
    }
}

/// Compiles a query of at most 4096 bytes, literal unless `regex` is set.
pub fn search_pattern(query: &str, regex: bool, case_insensitive: bool) -> (r: Result<Pattern, ToolError>)
    ensures
        match search_pattern_spec(query@, regex, case_insensitive) {
            Ok(source) => r matches Ok(p) && p.source() == source && p.case_insensitive()
                == case_insensitive && p.size_limit() == PATTERN_SIZE_LIMIT,
            Err(code) => r matches Err(e) && e.is_coded(code),
        },
{
    if byte_len_of(query) > 4096 {
        return Err(coded_invalid_request(ErrorCode::SearchQueryInvalid, "query must fit 4096 bytes"));
    }
    match Pattern::build(query, regex, case_insensitive, PATTERN_SIZE_LIMIT) {
        Ok(p) => Ok(p),
        Err(message) => Err(coded_invalid_request(ErrorCode::SearchRegexInvalid, message.as_str())),
    }
}

/// Checks a configuration search's selectors and compiles its query.
pub fn check_cell_search(request: &CellSearchRequest) -> (r: Result<Pattern, ToolError>)
    ensures
        !fields_ok(request.fields@) ==> (r matches Err(e) && e.is_coded(ErrorCode::SearchFieldsInvalid)),
        fields_ok(request.fields@) && request.scan && request.fields@.len() > 0 ==> (r matches Err(e)
            && e.is_coded(ErrorCode::SearchFieldsInvalid)),
        fields_ok(request.fields@) && !(request.scan && request.fields@.len() > 0) ==> match search_pattern_spec(
            request.query@,
            request.regex,
            request.case_insensitive,
        ) {
            Ok(source) => r matches Ok(p) && p.source() == source && p.case_insensitive()
                == request.case_insensitive && p.size_limit() == PATTERN_SIZE_LIMIT,
            Err(code) => r matches Err(e) && e.is_coded(code),
        },
{
    let checked = validate_fields(&request.fields);
    if let Err(e) = checked {
        return Err(e);
    }
    if request.scan && request.fields.len() > 0 {
        return Err(coded_invalid_request(ErrorCode::SearchFieldsInvalid, "choose scan or fields, not both"));
    }
    search_pattern(request.query.as_str(), request.regex, request.case_insensitive)
}

/// One searchable component or link: its `id` string, when it has one, and its compact JSON.
#[derive(Clone, Debug)]
pub struct SearchEntry {
    pub id: Option<String>,
    pub text: String,
}

/// An entry passes the exact-ID filter and the text pattern.
pub open spec fn entry_matches(e: SearchEntry, id: Option<Seq<char>>, p: Pattern) -> bool {
    (id matches Some(want) ==> (e.id matches Some(have) && have@ == want)) && p.matches(e.text@)
}

/// Indices of the matching entries among the first `upto`, in order.
pub open spec fn match_indices(es: Seq<SearchEntry>, id: Option<Seq<char>>, p: Pattern, upto: int) -> Seq<
    int,
>
    decreases upto,
{
    if upto <= 0 {
        Seq::<int>::empty()
    } else if entry_matches(es[upto - 1], id, p) {
        match_indices(es, id, p, upto - 1).push(upto - 1)
    } else {
        match_indices(es, id, p, upto - 1)
    }
}

pub open spec fn as_ints(v: Seq<usize>) -> Seq<int> {
    v.map_values(|x: usize| x as int)
}

/// The page capacity: `limit` clamped to 1..=200.
pub open spec fn page_capacity(limit: nat) -> nat {
    if limit < 1 {
        1
    } else if limit > 200 {
        200
    } else {
        limit
    }
}

/// Whether a page holding exactly these entries was measured and leaves at
/// least 512 bytes of the budget.
pub open spec fn page_fits<F: Fn(&Vec<usize>) -> usize>(size_with: F, page: Seq<usize>) -> bool {
    exists|v: Vec<usize>, s: usize| v@ == page && #[trigger] size_with.ensures((&v,), s) && s + 512
        <= MAX_AGENT_RESPONSE_BYTES
}

/// Collects the page of matches at match positions `offset, offset + 1, ...`,
/// stopping at the capacity, at the end of the matches, or at the first match
/// whose addition would leave less than 512 bytes of the budget.
///
/// `size_with(items)` is the wire size of the search result holding these entries.
/// Returns the number of matches and the entry indices on the page.
pub fn search_page<F: Fn(&Vec<usize>) -> usize>(
    entries: &Vec<SearchEntry>,
    id: Option<&str>,
    pattern: &Pattern,
    offset: usize,
    limit: usize,
    size_with: F,
) -> (r: (usize, Vec<usize>))
    requires
        forall|v: &Vec<usize>| size_with.requires((v,)),
    ensures
        ({
            let mi = match_indices(entries@, opt_view(id), *pattern, entries@.len() as int);
            let (matched, items) = r;
            let cap = page_capacity(limit as nat);
            &&& matched == mi.len()
            &&& items@.len() <= cap
            &&& offset + items@.len() <= (if offset < matched { matched as int } else { offset as int })
            &&& forall|k: int| 0 <= k < items@.len() ==> #[trigger] items@[k] == mi[offset + k]
            &&& (items@.len() < cap && offset + items@.len() < matched) ==> exists|v: Vec<usize>, s: usize|
                as_ints(v@) == as_ints(items@).push(mi[offset + items@.len()]) && #[trigger] size_with.ensures((&v,), s)
                    && s + 512 > MAX_AGENT_RESPONSE_BYTES
            &&& forall|j: int| 0 < j <= items@.len() ==> #[trigger] page_fits(size_with, items@.take(j))
        }),
{
    let n = entries.len();
    let cap: usize = if limit < 1 {
        1
    } else if limit > 200 {
        200
    } else {
        limit
    };
    let ghost want = opt_view(id);
    let mut matched: usize = 0;
    let mut items: Vec<usize> = Vec::new();
    let mut page_full = false;
    let mut i: usize = 0;
    while i < n
        invariant
            n == entries@.len(),
            i <= n,
            cap == page_capacity(limit as nat),
            want == opt_view(id),
            forall|v: &Vec<usize>| size_with.requires((v,)),
            matched == match_indices(entries@, want, *pattern, i as int).len(),
            matched <= i,
            items@.len() <= cap,
            offset + items@.len() <= (if offset < matched { matched as int } else { offset as int }),
            forall|k: int| 0 <= k < items@.len() ==> #[trigger] items@[k] == match_indices(
                entries@,
                want,
                *pattern,
                i as int,
            )[offset + k],
            !page_full && items@.len() < cap ==> offset + items@.len() == (if offset < matched {
                matched as int
            } else {
                offset as int
            }),
            page_full ==> exists|v: Vec<usize>, s: usize|
                as_ints(v@) == as_ints(items@).push(
                    match_indices(entries@, want, *pattern, i as int)[offset + items@.len()],
                ) && #[trigger] size_with.ensures((&v,), s) && s + 512 > MAX_AGENT_RESPONSE_BYTES,
            page_full ==> items@.len() < cap && offset + items@.len() < matched,
            forall|j: int| 0 < j <= items@.len() ==> #[trigger] page_fits(size_with, items@.take(j)),
        decreases n - i,
    {
        let e = &entries[i];
        let id_ok = match id {
            None => true,
            Some(want_id) => match &e.id {
                Some(have) => str_eq(have.as_str(), want_id),
                None => false,
            },
        };
        let ghost before = match_indices(entries@, want, *pattern, i as int);
        if id_ok && pattern.is_match(e.text.as_str()) {
            assert(match_indices(entries@, want, *pattern, i + 1) == before.push(i as int));
            let position = matched;
            matched = matched + 1;
            if !(position < offset || page_full || items.len() >= cap) {
                let ghost old_items = items@;
                items.push(i);
                let size = size_with(&items);
                proof {
                    assert forall|j: int| 0 < j <= old_items.len() implies items@.take(j) == old_items.take(j) by {
                        assert(items@.take(j) =~= old_items.take(j));
                    }
                }
                if size > MAX_AGENT_RESPONSE_BYTES - 512 {
                    let ghost full = items;
                    items.pop();
                    page_full = true;
                    assert(as_ints(full@) =~= as_ints(items@).push(i as int));
                    assert(size_with.ensures((&full,), size));
                    assert(items@ =~= old_items);
                } else {
                    assert(items@.take(items@.len() as int) =~= items@);
                    assert(page_fits(size_with, items@.take(items@.len() as int)));
                    assert forall|j: int| 0 < j <= items@.len() implies #[trigger] page_fits(
                        size_with,
                        items@.take(j),
                    ) by {
                        if j < items@.len() {
                            assert(items@.take(j) == old_items.take(j));
                            assert(page_fits(size_with, old_items.take(j)));
                        }
                    }
                }
            }
        } else {
            assert(match_indices(entries@, want, *pattern, i + 1) == before);
        }
        i = i + 1;
    }
    (matched, items)
}

/// What ending a search page yields: a stale cursor past the matches, the
/// continuation cursor, or the error of a page on which no match fits.
pub open spec fn finish_spec(offset: nat, matched: nat, items: nat, fingerprint: Seq<char>) -> Result<
    Option<Seq<char>>,
    ErrorCode,
> {
    if offset > matched {
        Err(ErrorCode::CellSearchCursorInvalid)
    } else if offset + items < matched {
        if items == 0 {
            Err(ErrorCode::CellSearchResponseTooLarge)
        } else {
            Ok(Some(search_cursor_spec(fingerprint, (offset + items) as nat)))
        }
    } else {
        Ok(None)
    }
}

/// Ends a search page: checks the cursor's offset against the matches and
/// issues the continuation when matches remain.
pub fn finish_search(offset: usize, matched: usize, items: usize, fingerprint: &str) -> (r: Result<
    Option<String>,
    ToolError,
>)
    requires
        offset + items <= usize::MAX,
    ensures
        match finish_spec(offset as nat, matched as nat, items as nat, fingerprint@) {
            Ok(None) => r matches Ok(None),
            Ok(Some(c)) => r matches Ok(Some(s)) && s@ == c,
            Err(code) => r matches Err(e) && e.is_coded(code),
        },
{
    if offset > matched {
        return Err(invalid_cursor());
    }
    let next = offset + items;
    if next < matched {
        if items == 0 {
            return Err(
                coded_invalid_request(
                    ErrorCode::CellSearchResponseTooLarge,
                    "no matching item fits; use scan=true or select smaller fields",
                ),
            );
        }
        return Ok(Some(search_cursor(fingerprint, next)));
    }
    Ok(None)
}

/// Which part of the document an entry comes from.
#[derive(Clone, Copy, Debug, PartialEq, Eq, Structural)]
pub enum EntrySection {
    Components,
    Links,
}

pub open spec fn section_name(s: EntrySection) -> Seq<char> {
    match s {
        EntrySection::Components => "components"@,
        EntrySection::Links => "links"@,
    }
}

/// The document path of a match: `/<section>/<index>`.
pub fn match_path(section: EntrySection, index: usize) -> (r: String)
    ensures
        r@ == seq!['/'] + section_name(section) + seq!['/'] + decimal(index as nat),
{
    let mut r = String::new();
    push_char(&mut r, '/');
    match section {
        EntrySection::Components => r.append("components"),
        EntrySection::Links => r.append("links"),
    }
    push_char(&mut r, '/');
    let n = render_u64(index as u64);
    r.append(n.as_str());
    r
}

/// A selected value larger than half the budget is omitted unless scanning.
pub fn omit_value(scan: bool, wire_bytes: usize) -> (r: bool)
    ensures
        r == (!scan && wire_bytes > MAX_AGENT_RESPONSE_BYTES / 2),
{
    !scan && wire_bytes > MAX_AGENT_RESPONSE_BYTES / 2
}

/// Following a page's continuation resumes the search exactly after the
/// page's last match, and only for the same fingerprint.
pub proof fn lemma_search_continuation_resumes(offset: nat, matched: nat, items: nat, fingerprint: Seq<char>)
    requires
        offset + items <= usize::MAX,
        finish_spec(offset, matched, items, fingerprint) matches Ok(Some(_)),
    ensures
        finish_spec(offset, matched, items, fingerprint) matches Ok(Some(c)) && search_start_spec(
            Some(c),
            fingerprint,
        ) == Some((offset + items) as nat),
{
    lemma_search_cursor_round_trip(fingerprint, (offset + items) as usize);
}

/// Whether a JSON value is this string.
pub open spec fn json_text(j: Json, text: Seq<char>) -> bool {
    j matches Json::Str(s) && s@ == text
}

/// Whether a JSON value is this boolean.
pub open spec fn json_flag(j: Json, b: bool) -> bool {
    j == Json::Bool(b)
}

/// The wire name of a search section.
pub open spec fn search_section_name(section: CellSearchSection) -> Seq<char> {
    match section {
        CellSearchSection::Components => "components"@,
        CellSearchSection::Links => "links"@,
        CellSearchSection::All => "all"@,
    }
}

/// What a configuration-search cursor is bound to, in order: the document's
/// ID, version and cell digest, then every selector of the request but the
/// cursor and the page size. The fingerprint is the digest of this value, so a
/// cursor is refused once the document or any selector changes.
pub open spec fn search_binding_is(
    r: Json,
    document_id: Seq<char>,
    version: u64,
    cell_digest: Seq<char>,
    request: CellSearchRequest,
) -> bool {
    &&& r matches Json::Array(items)
    &&& items@.len() == 10
    &&& json_text(items@[0], document_id)
    &&& items@[1] matches Json::Number(v) && v@ == decimal(version as nat)
    &&& json_text(items@[2], cell_digest)
    &&& json_text(items@[3], request.query@)
    &&& json_flag(items@[4], request.regex)
    &&& json_flag(items@[5], request.case_insensitive)
    &&& json_text(items@[6], search_section_name(request.section))
    &&& items@[7] matches Json::Array(fs) && fs@.len() == request.fields@.len() && forall|i: int|
        0 <= i < fs@.len() ==> json_text(#[trigger] fs@[i], request.fields@[i]@)
    &&& json_flag(items@[8], request.scan)
    &&& match request.id {
        Some(id) => json_text(items@[9], id@),
        None => items@[9] == Json::Null,
    }
}

/// The value a configuration-search fingerprint digests.
pub fn search_binding(document_id: &str, version: u64, cell_digest: &str, request: &CellSearchRequest) -> (r: Json)
    ensures
        search_binding_is(r, document_id@, version, cell_digest@, *request),
{
    let mut fields: Vec<Json> = Vec::new();
    let mut i: usize = 0;
    while i < request.fields.len()
        invariant
            i <= request.fields@.len(),
            fields@.len() == i,
            forall|k: int| 0 <= k < i ==> json_text(#[trigger] fields@[k], request.fields@[k]@),
        decreases request.fields@.len() - i,
    {
        fields.push(Json::Str(request.fields[i].clone()));
        i = i + 1;
    }
    let section = match request.section {
        CellSearchSection::Components => "components",
        CellSearchSection::Links => "links",
        CellSearchSection::All => "all",
    };
    let id = match &request.id {
        Some(id) => Json::Str(id.clone()),
        None => Json::Null,
    };
    let items = vec![
        Json::Str(document_id.to_owned()),
        Json::Number(render_u64(version)),
        Json::Str(cell_digest.to_owned()),
        Json::Str(request.query.clone()),
        Json::Bool(request.regex),
        Json::Bool(request.case_insensitive),
        Json::Str(section.to_owned()),
        Json::Array(fields),
        Json::Bool(request.scan),
        id,
    ];
    Json::Array(items)
}

/// Whether `lens` are the page sizes of a search followed from `offset` to its
/// end: each page holds at most the matches left, its end issues the cursor
/// the next page starts from, and only the last page issues none.
pub open spec fn search_pages_follow(matched: nat, offset: nat, lens: Seq<nat>, fingerprint: Seq<char>) -> bool
    decreases lens.len(),
{
    &&& lens.len() > 0
    &&& offset + lens[0] <= matched
    &&& offset + lens[0] <= usize::MAX
    &&& match finish_spec(offset, matched, lens[0], fingerprint) {
        Ok(None) => lens.len() == 1,
        Ok(Some(c)) => lens.len() > 1 && match search_start_spec(Some(c), fingerprint) {
            Some(next) => search_pages_follow(matched, next, lens.drop_first(), fingerprint),
            None => false,
        },
        Err(_) => false,
    }
}

/// The matches the pages list, in order: each page lists the matches from
/// where its cursor starts.
pub open spec fn search_pages_listing(
    matches: Seq<int>,
    offset: nat,
    lens: Seq<nat>,
    fingerprint: Seq<char>,
) -> Seq<int>
    decreases lens.len(),
{
    if lens.len() == 0 {
        Seq::empty()
    } else {
        let page = matches.subrange(offset as int, (offset + lens[0]) as int);
        match finish_spec(offset, matches.len(), lens[0], fingerprint) {
            Ok(Some(c)) => match search_start_spec(Some(c), fingerprint) {
                Some(next) => page + search_pages_listing(matches, next, lens.drop_first(), fingerprint),
                None => page,
            },
            _ => page,
        }
    }
}

/// Following a configuration search's continuations from its first page lists
/// every match exactly once, in order: the pages that `search_page` fills (each
/// the matches from its offset on) and `finish_search` continues, read one
/// after the other, give back all the matches.
pub proof fn lemma_search_pages_list_every_match(matches: Seq<int>, lens: Seq<nat>, fingerprint: Seq<char>)
    requires
        search_pages_follow(matches.len(), 0, lens, fingerprint),
    ensures
        search_pages_listing(matches, 0, lens, fingerprint) == matches,
{
    lemma_search_pages_from(matches, 0, lens, fingerprint);
    assert(matches.skip(0) =~= matches);
}

proof fn lemma_search_pages_from(matches: Seq<int>, offset: nat, lens: Seq<nat>, fingerprint: Seq<char>)
    requires
        offset <= matches.len(),
        search_pages_follow(matches.len(), offset, lens, fingerprint),
    ensures
        search_pages_listing(matches, offset, lens, fingerprint) == matches.skip(offset as int),
    decreases lens.len(),
{
    let matched = matches.len();
    let page = matches.subrange(offset as int, (offset + lens[0]) as int);
    match finish_spec(offset, matched, lens[0], fingerprint) {
        Ok(None) => {
            assert(page =~= matches.skip(offset as int));
        },
        Ok(Some(c)) => {
            lemma_search_continuation_resumes(offset, matched, lens[0], fingerprint);
            let next = (offset + lens[0]) as nat;
            lemma_search_pages_from(matches, next, lens.drop_first(), fingerprint);
            assert(page + matches.skip(next as int) =~= matches.skip(offset as int));
        },
        Err(_) => {},
    }
}

/// Whether an entry carries the searched ID (when one is given) and matches the query.
pub open spec fn entry_found(e: SearchEntry, id: Option<Seq<char>>, p: Pattern) -> bool {
    &&& (id matches Some(want) ==> (e.id matches Some(have) && have@ == want))
    &&& p.matches(e.text@)
}

/// A configuration search finds exactly the entries it should, in order: the
/// matches among the first `upto` entries are strictly increasing positions of
/// entries that carry the searched ID and match the query, and every such
/// entry is among them.
pub proof fn lemma_search_finds_exactly(es: Seq<SearchEntry>, id: Option<Seq<char>>, p: Pattern, upto: int)
    requires
        0 <= upto <= es.len(),
    ensures
        forall|k: int|
            0 <= k < match_indices(es, id, p, upto).len() ==> 0 <= #[trigger] match_indices(es, id, p, upto)[k]
                < upto && entry_found(es[match_indices(es, id, p, upto)[k]], id, p),
        forall|a: int, b: int|
            0 <= a < b < match_indices(es, id, p, upto).len() ==> match_indices(es, id, p, upto)[a]
                < match_indices(es, id, p, upto)[b],
        forall|j: int| 0 <= j < upto && entry_found(#[trigger] es[j], id, p) ==> match_indices(es, id, p, upto).contains(j),
    decreases upto,
{
    if upto > 0 {
        lemma_search_finds_exactly(es, id, p, upto - 1);
        let before = match_indices(es, id, p, upto - 1);
        let now = match_indices(es, id, p, upto);
        if entry_matches(es[upto - 1], id, p) {
            assert(now == before.push(upto - 1));
            assert forall|j: int| 0 <= j < upto && entry_found(#[trigger] es[j], id, p) implies now.contains(j) by {
                if j < upto - 1 {
                    let w = choose|w: int| 0 <= w < before.len() && before[w] == j;
                    assert(now[w] == j);
                } else {
                    assert(now[now.len() - 1] == j);
                }
            }
        } else {
            assert(now == before);
        }
    }
}

} // verus!

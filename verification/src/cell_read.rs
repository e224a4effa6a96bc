//! Bounded reads of cell documents: configuration, preview plan or image lock,
//! at a pointer, as a value slice or as a scan of immediate children.
use crate::error::{ErrorCode, ToolError, coded_invalid_request};
use crate::limits::MAX_AGENT_RESPONSE_BYTES;
use crate::pointer::{pointer_ok, validate_pointer};
use crate::requests::{CellDocumentSection, CellReadRequest, CellTarget};
use crate::json::{Json, lookup, resolve};
use crate::slices::{
    ScanEntry, SelectedShape, SliceUnit, Window, entries_are, fit_halving, halved, initial_length,
    lemma_halved_bound, nat_option, next_offset, next_offset_spec, offset_ok, scan_entries, shape_is,
    shape_of, slice_total, total_of, tried_before, halving_exhausted, window, window_is,
};
use crate::text::str_eq;
use vstd::prelude::*;

verus! {

/// The default window: 100 characters, items or entries.
pub fn default_limit() -> (r: usize)
    ensures
        r == 100,
{
    100
}

/// Which snapshot a cell read targets: a named cell or a preview, never both.
pub enum ReadTarget {
    Cell,
    Preview,
}

/// Resolves a read target: exactly one of a name and a plan ID.
pub fn read_target(target: &CellTarget) -> (r: Result<ReadTarget, ToolError>)
    ensures
        match (target.name, target.plan_id) {
            (Some(_), None) => r matches Ok(ReadTarget::Cell),
            (None, Some(_)) => r matches Ok(ReadTarget::Preview),
            _ => r matches Err(e) && e.is_coded(ErrorCode::CellReadTarget),
        },
{
    match (&target.name, &target.plan_id) {
        (Some(_), None) => Ok(ReadTarget::Cell),
        (None, Some(_)) => Ok(ReadTarget::Preview),
        _ => Err(coded_invalid_request(ErrorCode::CellReadTarget, "Supply name or plan_id, not both")),
    }
}

/// A plan document needs the preview ID.
pub fn plan_document_id(request: &CellReadRequest) -> (r: Result<&String, ToolError>)
    ensures
        match request.target.plan_id {
            Some(id) => r == Ok::<&String, ToolError>(&id),
            None => r matches Err(e) && e.is_coded(ErrorCode::CellReadTarget),
        },
{
    match &request.target.plan_id {
        Some(id) => Ok(id),
        None => Err(coded_invalid_request(ErrorCode::CellReadTarget, "document=plan requires plan_id")),
    }
}

/// What checking a cell read's pointer and window size yields.
pub open spec fn cell_read_check(request: CellReadRequest) -> Result<(), ErrorCode> {
    if !pointer_ok(request.pointer@) {
        Err(ErrorCode::InvalidJsonPointer)
    } else if !(1 <= request.limit <= 4000) {
        Err(ErrorCode::CellReadLimit)
    } else {
        Ok(())
    }
}

/// Checks the pointer's syntax and a window of 1..=4000.
pub fn check_cell_read(request: &CellReadRequest) -> (r: Result<(), ToolError>)
    ensures
        match cell_read_check(*request) {
            Ok(()) => r is Ok,
            Err(code) => r matches Err(e) && e.is_coded(code),
        },
{
    let checked = validate_pointer(request.pointer.as_str());
    if let Err(e) = checked {
        return Err(e);
    }
    if !(1 <= request.limit && request.limit <= 4000) {
        return Err(coded_invalid_request(ErrorCode::CellReadLimit, "limit must be 1..=4000"));
    }
    Ok(())
}

/// Rejects a read whose expected digest differs from the document's digest.
pub fn check_cell_digest(expected: Option<&str>, digest: &str) -> (r: Result<(), ToolError>)
    ensures
        r is Err <==> (expected matches Some(d) && d@ != digest@),
        r matches Err(e) ==> e.is_coded(ErrorCode::CellReadChanged),
{
    match expected {
        Some(d) => if !str_eq(d, digest) {
            Err(
                coded_invalid_request(
                    ErrorCode::CellReadChanged,
                    "Desired configuration changed; search again or omit expected_digest for a fresh observation",
                ),
            )
        } else {
            Ok(())
        },
        None => Ok(()),
    }
}

/// The error of a pointer that selects nothing in the document.
pub fn cell_pointer_missing() -> (e: ToolError)
    ensures
        e.is_coded(ErrorCode::CellReadPointerMissing),
{
    coded_invalid_request(
        ErrorCode::CellReadPointerMissing,
        "Pointer is absent; scan its parent for available paths",
    )
}

/// An object larger than half the response budget is always scanned.
pub open spec fn scans(shape: SelectedShape, requested: bool) -> bool {
    requested || (shape matches SelectedShape::Record { wire_bytes, .. } && wire_bytes
        > MAX_AGENT_RESPONSE_BYTES / 2)
}

/// What planning a cell read yields: whether it scans, the value's size and the
/// first window, or the error of a bad offset or a scan of a non-container.
pub open spec fn cell_read_plan_spec(offset: nat, limit: nat, requested_scan: bool, shape: SelectedShape) -> Result<
    (bool, Option<nat>, nat),
    ErrorCode,
> {
    let scan = scans(shape, requested_scan);
    let total = slice_total(shape, scan);
    if !offset_ok(offset, total) {
        Err(ErrorCode::CellReadOffset)
    } else if scan && (shape is Text || shape is Scalar) {
        Err(ErrorCode::CellReadScan)
    } else {
        Ok((scan, total, initial_length(offset, limit, total)))
    }
}

/// Decides scanning, checks the offset and returns (scan, total, first window).
pub fn cell_read_plan(offset: usize, limit: usize, requested_scan: bool, shape: SelectedShape) -> (r:
    Result<(bool, Option<usize>, usize), ToolError>)
    ensures
        match cell_read_plan_spec(offset as nat, limit as nat, requested_scan, shape) {
            Ok((scan, total, len)) => r matches Ok((s, t, l)) && s == scan && l == len && match t {
                Some(n) => total == Some(n as nat),
                None => total is None,
            },
            Err(code) => r matches Err(e) && e.is_coded(code),
        },
{
    let oversized = match shape {
        SelectedShape::Record { wire_bytes, .. } => wire_bytes > MAX_AGENT_RESPONSE_BYTES / 2,
        _ => false,
    };
    let scan = requested_scan || oversized;
    let total = total_of(shape, scan);
    let bad = match total {
        Some(n) => offset > n,
        None => offset != 0,
    };
    if bad {
        return Err(coded_invalid_request(ErrorCode::CellReadOffset, "offset exceeds the selected value"));
    }
    let container = match shape {
        SelectedShape::List { .. } | SelectedShape::Record { .. } => true,
        _ => false,
    };
    if scan && !container {
        return Err(coded_invalid_request(ErrorCode::CellReadScan, "scan requires an object or array"));
    }
    let len = match total {
        Some(n) => if n - offset < limit {
            n - offset
        } else {
            limit
        },
        None => 0,
    };
    Ok((scan, total, len))
}

/// Shrinks the window by halves until the response fits 32 KiB.
/// `size_of(n)` is the wire size of the response holding a window of `n`.
pub fn fit_cell_read<F: Fn(usize) -> usize>(initial: usize, size_of: F) -> (r: Result<
    usize,
    ToolError,
>)
    requires
        forall|n: usize| size_of.requires((n,)),
    ensures
        match r {
            Ok(n) => exists|k: nat|
                #![trigger halved(initial as nat, k)]
                n == halved(initial as nat, k) && tried_before(size_of, initial as nat, k) && exists|
                    s: usize,
                | #[trigger] size_of.ensures((n,), s) && s <= MAX_AGENT_RESPONSE_BYTES,
            Err(e) => e.is_coded(ErrorCode::CellReadValueTooLarge) && halving_exhausted(size_of, initial as nat),
        },
{
    match fit_halving(initial, size_of) {
        Some(n) => Ok(n),
        None => Err(
            coded_invalid_request(
                ErrorCode::CellReadValueTooLarge,
                "Select a deeper pointer or use scan=true to locate the large array item's fields",
            ),
        ),
    }
}

/// Whether the document is the configuration, whose digest is the cell digest.
pub fn digest_is_cell(document: CellDocumentSection) -> (r: bool)
    ensures
        r == (document == CellDocumentSection::Configuration),
{
    match document {
        CellDocumentSection::Configuration => true,
        _ => false,
    }
}

/// What a cell read page carries: a slice of the value, or the entries of a scan.
#[derive(Debug)]
pub enum CellReadBody<'a> {
    Slice(Window<'a>),
    Scan(Vec<ScanEntry>),
}

/// One page of a cell document read.
#[derive(Debug)]
pub struct CellReadPage<'a> {
    pub scan: bool,
    pub body: CellReadBody<'a>,
    pub offset: usize,
    pub next_offset: Option<usize>,
    pub total_length: Option<usize>,
    pub unit: SliceUnit,
}

/// The page holds the slice, or the scan entries, of `v` of `length` from `offset`.
pub open spec fn cell_page_is<G: Fn(&Json) -> usize>(
    page: CellReadPage,
    v: Json,
    pointer: Seq<char>,
    scan: bool,
    offset: nat,
    length: nat,
    total: Option<nat>,
    wire_size: G,
) -> bool {
    &&& page.scan == scan
    &&& if scan {
        page.body matches CellReadBody::Scan(es) && entries_are(es@, v, pointer, offset, length, wire_size)
    } else {
        page.body matches CellReadBody::Slice(w) && window_is(w, v, offset, length)
    }
    &&& page.offset == offset
    &&& nat_option(page.total_length) == total
    &&& nat_option(page.next_offset) == next_offset_spec(offset, length, total)
    &&& page.unit == (if v is Str {
        SliceUnit::Characters
    } else {
        SliceUnit::Items
    })
}

/// Reads a cell document at a pointer: checks the request and the digest
/// fence, selects the value, scans objects too large to show, and returns the
/// largest slice or scan, halving from the requested window, whose response
/// fits. `wire_size` gives a value's compact JSON size; `size_of(n)` is the
/// wire size of the response holding a window of `n`.
pub fn read_cell_value<'a, F: Fn(usize) -> usize, G: Fn(&Json) -> usize>(
    document: &'a Json,
    digest: &str,
    request: &CellReadRequest,
    wire_size: &G,
    size_of: F,
) -> (r: Result<CellReadPage<'a>, ToolError>)
    requires
        forall|n: usize| size_of.requires((n,)),
        forall|x: &Json| wire_size.requires((x,)),
    ensures
        match cell_read_check(*request) {
            Err(code) => r matches Err(e) && e.is_coded(code),
            Ok(()) => if request.expected_digest matches Some(d) && d@ != digest@ {
                r matches Err(e) && e.is_coded(ErrorCode::CellReadChanged)
            } else {
                match resolve(*document, request.pointer@) {
                    None => r matches Err(e) && e.is_coded(ErrorCode::CellReadPointerMissing),
                    Some(v) => exists|shape: SelectedShape|
                        #[trigger] shape_is(shape, v, *wire_size) && match cell_read_plan_spec(
                            request.offset as nat,
                            request.limit as nat,
                            request.scan,
                            shape,
                        ) {
                            Err(code) => r matches Err(e) && e.is_coded(code),
                            Ok((scan, total, initial)) => match r {
                                Ok(page) => exists|k: nat|
                                    #![trigger halved(initial, k)]
                                    tried_before(size_of, initial, k) && cell_page_is(
                                        page,
                                        v,
                                        request.pointer@,
                                        scan,
                                        request.offset as nat,
                                        halved(initial, k),
                                        total,
                                        *wire_size,
                                    ) && exists|s: usize|
                                        #[trigger] size_of.ensures((halved(initial, k) as usize,), s)
                                            && s <= MAX_AGENT_RESPONSE_BYTES,
                                Err(e) => e.is_coded(ErrorCode::CellReadValueTooLarge) && halving_exhausted(size_of, initial),
                            },
                        },
                }
            }
        },
{
    match check_cell_read(request) {
        Ok(()) => {},
        Err(e) => {
            return Err(e);
        },
    }
    let expected = match &request.expected_digest {
        Some(d) => Some(d.as_str()),
        None => None,
    };
    match check_cell_digest(expected, digest) {
        Ok(()) => {},
        Err(e) => {
            return Err(e);
        },
    }
    let v = match lookup(document, request.pointer.as_str()) {
        Some(v) => v,
        None => {
            return Err(cell_pointer_missing());
        },
    };
    let shape = shape_of(v, wire_size);
    assert(shape_is(shape, *v, *wire_size));
    let (scan, total, initial) = match cell_read_plan(request.offset, request.limit, request.scan, shape) {
        Ok(plan) => plan,
        Err(e) => {
            return Err(e);
        },
    };
    let length = match fit_cell_read(initial, size_of) {
        Ok(n) => n,
        Err(e) => {
            return Err(e);
        },
    };
    let ghost k = choose|k: nat|
        #![trigger halved(initial as nat, k)]
        length == halved(initial as nat, k) && tried_before(size_of, initial as nat, k) && exists|s: usize|
            #[trigger] size_of.ensures((length,), s) && s <= MAX_AGENT_RESPONSE_BYTES;
    proof {
        lemma_halved_bound(initial as nat, k);
    }
    let body = if scan {
        CellReadBody::Scan(scan_entries(v, request.pointer.as_str(), request.offset, length, wire_size))
    } else {
        CellReadBody::Slice(window(v, request.offset, length))
    };
    let unit = match v {
        Json::Str(_) => SliceUnit::Characters,
        _ => SliceUnit::Items,
    };
    let next = next_offset(request.offset, length, total);
    let page = CellReadPage { scan, body, offset: request.offset, next_offset: next, total_length: total, unit };
    proof {
        let fits = choose|s: usize| #[trigger] size_of.ensures((length,), s) && s <= MAX_AGENT_RESPONSE_BYTES;
        assert(size_of.ensures((halved(initial as nat, k) as usize,), fits));
    }
    Ok(page)
}

} // verus!

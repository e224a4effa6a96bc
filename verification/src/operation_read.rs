//! Bounded reads of recorded operation data: a pointer, an optional digest
//! fence, and a character or item window that shrinks to fit the response.
use crate::error::{ErrorCode, ToolError, coded_invalid_request};
use crate::pointer::{pointer_ok, validate_pointer};
use crate::json::{Json, lookup, resolve};
use crate::slices::{
    SliceUnit, Window, fit_halving, halved, initial_length, lemma_halved_bound, nat_option, next_offset,
    next_offset_spec, offset_ok, sliceable_len, tried_before, halving_exhausted, window, window_is,
};
use crate::limits::MAX_AGENT_RESPONSE_BYTES;
use crate::text::str_eq;
use vstd::prelude::*;

verus! {

/// A read of one recorded operation at a JSON pointer.
#[derive(Clone, Debug)]
pub struct OperationReadRequest {
    pub operation_id: String,
    pub pointer: String,
    pub expected_digest: Option<String>,
    pub offset: usize,
    pub limit: usize,
}

/// The default window: 1000 characters or items.
pub fn default_limit() -> (r: usize)
    ensures
        r == 1000,
{
    1000
}

/// What checking a read's pointer and window size yields.
pub open spec fn operation_read_check(request: OperationReadRequest) -> Result<(), ErrorCode> {
    if !pointer_ok(request.pointer@) {
        Err(ErrorCode::InvalidJsonPointer)
    } else if !(1 <= request.limit <= 4000) {
        Err(ErrorCode::OperationReadLimit)
    } else {
        Ok(())
    }
}

/// Checks the pointer's syntax and a window of 1..=4000 characters or items.
pub fn check_operation_read(request: &OperationReadRequest) -> (r: Result<(), ToolError>)
    ensures
        match operation_read_check(*request) {
            Ok(()) => r is Ok,
            Err(code) => r matches Err(e) && e.is_coded(code),
        },
{
    let checked = validate_pointer(request.pointer.as_str());
    if let Err(e) = checked {
        return Err(e);
    }
    if !(1 <= request.limit && request.limit <= 4000) {
        return Err(
            coded_invalid_request(ErrorCode::OperationReadLimit, "limit must be between 1 and 4000"),
        );
    }
    Ok(())
}

/// Rejects a read whose expected digest differs from the operation's current digest.
pub fn check_operation_digest(expected: Option<&str>, digest: &str) -> (r: Result<(), ToolError>)
    ensures
        r is Err <==> (expected matches Some(d) && d@ != digest@),
        r matches Err(e) ==> e.is_coded(ErrorCode::OperationReadChanged),
{
    match expected {
        Some(d) => if !str_eq(d, digest) {
            Err(
                coded_invalid_request(
                    ErrorCode::OperationReadChanged,
                    "The recorded operation changed. Repeat activity_search or read without expected_digest to observe its current state",
                ),
            )
        } else {
            Ok(())
        },
        None => Ok(()),
    }
}

/// The error of a pointer that selects nothing in the recorded operation.
pub fn operation_pointer_missing() -> (e: ToolError)
    ensures
        e.is_coded(ErrorCode::OperationReadPointerMissing),
{
    coded_invalid_request(
        ErrorCode::OperationReadPointerMissing,
        "The selected JSON pointer does not exist. Use a matching pointer from activity_search or read its parent object",
    )
}

/// Checks the offset against the selected string's characters or array's items
/// (`total`; `None` for other values) and returns the first window to try.
pub fn operation_window(offset: usize, limit: usize, total: Option<usize>) -> (r: Result<
    usize,
    ToolError,
>)
    ensures
        r is Ok <==> offset_ok(
            offset as nat,
            match total {
                Some(n) => Some(n as nat),
                None => None,
            },
        ),
        r matches Ok(len) ==> len == (match total {
            Some(n) => if n - offset < limit {
                (n - offset) as int
            } else {
                limit as int
            },
            None => 0,
        }),
        r matches Err(e) ==> e.is_coded(ErrorCode::OperationReadOffset),
{
    let bad = match total {
        Some(n) => offset > n,
        None => offset != 0,
    };
    if bad {
        return Err(
            coded_invalid_request(
                ErrorCode::OperationReadOffset,
                "offset must be within the selected string or array; use zero for other JSON values",
            ),
        );
    }
    match total {
        Some(n) => if n - offset < limit {
            Ok(n - offset)
        } else {
            Ok(limit)
        },
        None => Ok(0),
    }
}

/// Shrinks the window by halves until the response fits 32 KiB.
/// `size_of(n)` is the wire size of the response holding a window of `n`.
pub fn fit_operation_read<F: Fn(usize) -> usize>(initial: usize, size_of: F) -> (r: Result<
    usize,
    ToolError,
>)
    requires
        forall|n: usize| size_of.requires((n,)),
    ensures
        match r {
            Ok(n) => exists|k: nat|
                #![trigger halved(initial as nat, k)]
                n == halved(initial as nat, k) && tried_before(size_of, initial as nat, k) && exists|
                    s: usize,
                | #[trigger] size_of.ensures((n,), s) && s <= MAX_AGENT_RESPONSE_BYTES,
            Err(e) => e.is_coded(ErrorCode::OperationReadValueTooLarge) && halving_exhausted(size_of, initial as nat),
        },
{
    match fit_halving(initial, size_of) {
        Some(n) => Ok(n),
        None => Err(
            coded_invalid_request(
                ErrorCode::OperationReadValueTooLarge,
                "The selected object or array item exceeds 32 KiB. Select a deeper JSON pointer; string values support offset/limit slices",
            ),
        ),
    }
}

/// One page of a recorded operation read.
#[derive(Debug)]
pub struct OperationReadPage<'a> {
    pub value: Window<'a>,
    pub offset: usize,
    pub next_offset: Option<usize>,
    pub total_length: Option<usize>,
    pub unit: Option<SliceUnit>,
}

/// The unit of a recorded value's slices: characters of a string, items of an array.
pub open spec fn operation_unit(v: Json) -> Option<SliceUnit> {
    match v {
        Json::Str(_) => Some(SliceUnit::Characters),
        Json::Array(_) => Some(SliceUnit::Items),
        _ => None,
    }
}

/// The page holds the slice of `v` of `length` from `offset`.
pub open spec fn operation_page_is(page: OperationReadPage, v: Json, offset: nat, length: nat) -> bool {
    &&& window_is(page.value, v, offset, length)
    &&& page.offset == offset
    &&& nat_option(page.total_length) == sliceable_len(v)
    &&& nat_option(page.next_offset) == next_offset_spec(offset, length, sliceable_len(v))
    &&& page.unit == operation_unit(v)
}

/// Reads a recorded operation's document at a pointer: checks the request and
/// the digest fence, selects the value, and returns the largest slice, halving
/// from the requested window, whose response fits. `size_of(n)` is the wire
/// size of the response holding a slice of `n`.
pub fn read_operation<'a, F: Fn(usize) -> usize>(
    document: &'a Json,
    digest: &str,
    request: &OperationReadRequest,
    size_of: F,
) -> (r: Result<OperationReadPage<'a>, ToolError>)
    requires
        forall|n: usize| size_of.requires((n,)),
    ensures
        match operation_read_check(*request) {
            Err(code) => r matches Err(e) && e.is_coded(code),
            Ok(()) => if request.expected_digest matches Some(d) && d@ != digest@ {
                r matches Err(e) && e.is_coded(ErrorCode::OperationReadChanged)
            } else {
                match resolve(*document, request.pointer@) {
                    None => r matches Err(e) && e.is_coded(ErrorCode::OperationReadPointerMissing),
                    Some(v) => if !offset_ok(request.offset as nat, sliceable_len(v)) {
                        r matches Err(e) && e.is_coded(ErrorCode::OperationReadOffset)
                    } else {
                        let initial = initial_length(
                            request.offset as nat,
                            request.limit as nat,
                            sliceable_len(v),
                        );
                        match r {
                            Ok(page) => exists|k: nat|
                                #![trigger halved(initial, k)]
                                tried_before(size_of, initial, k) && operation_page_is(
                                    page,
                                    v,
                                    request.offset as nat,
                                    halved(initial, k),
                                ) && exists|s: usize|
                                    #[trigger] size_of.ensures((halved(initial, k) as usize,), s) && s
                                        <= MAX_AGENT_RESPONSE_BYTES,
                            Err(e) => e.is_coded(ErrorCode::OperationReadValueTooLarge) && halving_exhausted(size_of, initial),
                        }
                    }
                }
            }
        },
{
    match check_operation_read(request) {
        Ok(()) => {},
        Err(e) => {
            return Err(e);
        },
    }
    let expected = match &request.expected_digest {
        Some(d) => Some(d.as_str()),
        None => None,
    };
    match check_operation_digest(expected, digest) {
        Ok(()) => {},
        Err(e) => {
            return Err(e);
        },
    }
    let v = match lookup(document, request.pointer.as_str()) {
        Some(v) => v,
        None => {
            return Err(operation_pointer_missing());
        },
    };
    let (total, unit): (Option<usize>, Option<SliceUnit>) = match v {
        Json::Str(s) => (Some(s.as_str().unicode_len()), Some(SliceUnit::Characters)),
        Json::Array(items) => (Some(items.len()), Some(SliceUnit::Items)),
        _ => (None, None),
    };
    assert(nat_option(total) == sliceable_len(*v));
    let initial = match operation_window(request.offset, request.limit, total) {
        Ok(n) => n,
        Err(e) => {
            return Err(e);
        },
    };
    assert(initial as nat == initial_length(request.offset as nat, request.limit as nat, sliceable_len(*v)));
    let length = match fit_operation_read(initial, size_of) {
        Ok(n) => n,
        Err(e) => {
            return Err(e);
        },
    };
    let ghost k = choose|k: nat|
        #![trigger halved(initial as nat, k)]
        length == halved(initial as nat, k) && tried_before(size_of, initial as nat, k) && exists|s: usize|
            #[trigger] size_of.ensures((length,), s) && s <= MAX_AGENT_RESPONSE_BYTES;
    proof {
        lemma_halved_bound(initial as nat, k);
    }
    let next = next_offset(request.offset, length, total);
    let page = OperationReadPage {
        value: window(v, request.offset, length),
        offset: request.offset,
        next_offset: next,
        total_length: total,
        unit,
    };
    proof {
        let init = initial_length(request.offset as nat, request.limit as nat, sliceable_len(*v));
        let fits = choose|s: usize| #[trigger] size_of.ensures((length,), s) && s <= MAX_AGENT_RESPONSE_BYTES;
        assert(halved(init, k) as usize == length);
        assert(size_of.ensures((halved(init, k) as usize,), fits));
        assert(tried_before(size_of, init, k));
        assert(operation_page_is(page, *v, request.offset as nat, halved(init, k)));
    }
    Ok(page)
}

} // verus!

//! Paging of preflight validation issues within the response budget.
use crate::limits::MAX_AGENT_RESPONSE_BYTES;
use crate::model::CellSpec;
use crate::text::{byte_len, byte_len_of, chars_of, string_of_range, string_views};
use crate::topology::topology_summary;
use vstd::prelude::*;

verus! {

broadcast use vstd::string::group_string_axioms;

/// An issue message longer than 4096 bytes keeps its first 1024 characters and a marker.
pub open spec fn truncated_message(m: Seq<char>) -> Seq<char> {
    if byte_len(m) > 4096 {
        m.take(if m.len() < 1024 { m.len() as int } else { 1024 }) + " [message truncated]"@
    } else {
        m
    }
}

/// Shortens an overlong issue message.
pub fn truncate_issue_message(message: &str) -> (r: String)
    ensures
        r@ == truncated_message(message@),
{
    if byte_len_of(message) > 4096 {
        let chars = chars_of(message);
        let end: usize = if chars.len() < 1024 {
            chars.len()
        } else {
            1024
        };
        let mut r = string_of_range(&chars, 0, end);
        r.append(" [message truncated]");
        assert(chars@.subrange(0, end as int) =~= message@.take(end as int));
        r
    } else {
        message.to_owned()
    }
}

/// How many issues a compacted result keeps: issues are added while each one's
/// size plus one fits what is left of the budget after the result's base size
/// and 128 bytes; the first issue is always kept.
pub open spec fn issues_kept(available: nat, sizes: Seq<usize>, kept: nat) -> nat
    decreases sizes.len(),
{
    if sizes.len() == 0 {
        kept
    } else if sizes[0] + 1 > available && kept > 0 {
        kept
    } else {
        issues_kept(
            if sizes[0] + 1 > available { 0 } else { (available - (sizes[0] + 1)) as nat },
            sizes.drop_first(),
            kept + 1,
        )
    }
}

/// The budget left for issues after a result's base size and 128 bytes.
pub open spec fn issue_budget(base_size: nat) -> nat {
    if base_size + 128 > MAX_AGENT_RESPONSE_BYTES {
        0
    } else {
        (MAX_AGENT_RESPONSE_BYTES - (base_size + 128)) as nat
    }
}

/// Counts the issues a compacted validation result keeps, given its base size
/// and each issue's serialized size.
pub fn fit_issue_count(base_size: usize, issue_sizes: &Vec<usize>) -> (r: usize)
    ensures
        r == issues_kept(issue_budget(base_size as nat), issue_sizes@, 0),
{
    let mut available: usize = if base_size > MAX_AGENT_RESPONSE_BYTES - 128 {
        0
    } else {
        MAX_AGENT_RESPONSE_BYTES - (base_size + 128)
    };
    let mut kept: usize = 0;
    let mut i: usize = 0;
    let n = issue_sizes.len();
    assert(issue_sizes@.skip(0) =~= issue_sizes@);
    while i < n
        invariant
            n == issue_sizes@.len(),
            i <= n,
            kept == i,
            available <= MAX_AGENT_RESPONSE_BYTES,
            issues_kept(issue_budget(base_size as nat), issue_sizes@, 0) == issues_kept(
                available as nat,
                issue_sizes@.skip(i as int),
                kept as nat,
            ),
        decreases n - i,
    {
        let size = issue_sizes[i];
        assert(issue_sizes@.skip(i as int)[0] == size);
        assert(issue_sizes@.skip(i as int).drop_first() =~= issue_sizes@.skip(i + 1));
        if size >= MAX_AGENT_RESPONSE_BYTES || size + 1 > available {
            if kept > 0 {
                return kept;
            }
            available = 0;
        } else {
            available = available - (size + 1);
        }
        kept = kept + 1;
        i = i + 1;
    }
    kept
}

/// Where the next issue page starts, while issues remain.
pub fn next_issue_offset(issue_offset: usize, kept: usize, issue_count: usize) -> (r: Option<usize>)
    ensures
        ({
            let next = if issue_offset + kept > usize::MAX { usize::MAX as int } else { issue_offset + kept };
            &&& next < issue_count ==> r == Some(next as usize)
            &&& next >= issue_count ==> r is None
        }),
{
    let next = issue_offset.saturating_add(kept);
    if next < issue_count {
        Some(next)
    } else {
        None
    }
}

proof fn lemma_issues_kept_bounds(available: nat, sizes: Seq<usize>, kept: nat)
    ensures
        kept <= issues_kept(available, sizes, kept) <= kept + sizes.len(),
        sizes.len() > 0 && kept == 0 ==> issues_kept(available, sizes, kept) >= 1,
    decreases sizes.len(),
{
    if sizes.len() > 0 {
        let next_available = if sizes[0] + 1 > available {
            0
        } else {
            (available - (sizes[0] + 1)) as nat
        };
        lemma_issues_kept_bounds(next_available, sizes.drop_first(), kept + 1);
    }
}

/// One validation issue: a stable code, where it applies, and what is wrong.
#[derive(Debug)]
pub struct ValidationIssue {
    pub code: String,
    pub path: String,
    pub message: String,
}

/// A validation report page.
#[derive(Debug)]
pub struct CellValidationResult {
    pub valid: bool,
    pub component_count: usize,
    pub link_count: usize,
    pub issue_count: usize,
    pub next_issue_offset: Option<usize>,
    pub details_omitted: bool,
    pub issues: Vec<ValidationIssue>,
    pub component_ids: Vec<String>,
    pub link_ids: Vec<String>,
    pub warnings: Vec<String>,
}

pub open spec fn issue_view(i: ValidationIssue) -> (Seq<char>, Seq<char>, Seq<char>) {
    (i.code@, i.path@, i.message@)
}

pub open spec fn issue_views(is: Seq<ValidationIssue>) -> Seq<(Seq<char>, Seq<char>, Seq<char>)> {
    is.map_values(|i: ValidationIssue| issue_view(i))
}

/// Every issue of a validation: the cell's own, then the publication
/// preflight's refusal when an otherwise valid cell has one.
pub open spec fn all_issues(valid: bool, issues: Seq<ValidationIssue>, preflight: Option<String>) -> Seq<
    (Seq<char>, Seq<char>, Seq<char>),
> {
    match preflight {
        Some(m) if valid => issue_views(issues).push(("publication_preflight_failed"@, "/"@, m@)),
        _ => issue_views(issues),
    }
}

/// The issues from `offset` on.
pub open spec fn issues_from<T>(all: Seq<T>, offset: nat) -> Seq<T> {
    if offset < all.len() {
        all.skip(offset as int)
    } else {
        Seq::empty()
    }
}

/// An issue with its message shortened as a compacted report shows it.
pub open spec fn truncated_issue(v: (Seq<char>, Seq<char>, Seq<char>)) -> (Seq<char>, Seq<char>, Seq<char>) {
    (v.0, v.1, truncated_message(v.2))
}

/// `size` was measured for an issue that reads as `v`.
pub open spec fn issue_measured<G: Fn(&ValidationIssue) -> usize>(
    issue_size: G,
    v: (Seq<char>, Seq<char>, Seq<char>),
    size: usize,
) -> bool {
    exists|t: ValidationIssue| #[trigger] issue_size.ensures((&t,), size) && issue_view(t) == v
}

/// `sizes` were measured, one by one, for the shortened issues of `page`.
pub open spec fn sizes_measured<G: Fn(&ValidationIssue) -> usize>(
    issue_size: G,
    page: Seq<(Seq<char>, Seq<char>, Seq<char>)>,
    sizes: Seq<usize>,
) -> bool {
    &&& sizes.len() == page.len()
    &&& forall|k: int| 0 <= k < sizes.len() ==> #[trigger] issue_measured(issue_size, truncated_issue(page[k]), sizes[k])
}

/// `size` was measured for a report holding the issues `page`, with or without details.
pub open spec fn report_measured<F: Fn(&CellValidationResult) -> usize>(
    result_size: F,
    page: Seq<(Seq<char>, Seq<char>, Seq<char>)>,
    omitted: bool,
    size: usize,
) -> bool {
    exists|x: CellValidationResult|
        #[trigger] result_size.ensures((&x,), size) && x.details_omitted == omitted && issue_views(x.issues@)
            == page
}

fn copy_issue(i: &ValidationIssue) -> (r: ValidationIssue)
    ensures
        issue_view(r) == issue_view(*i),
{
    ValidationIssue { code: i.code.clone(), path: i.path.clone(), message: i.message.clone() }
}

/// Builds a validation report page. `valid` and `issues` come from checking
/// the cell, `preflight` is the publication preflight's refusal (consulted
/// for a valid cell only), `issue_offset` selects the page. When the report
/// exceeds the budget it drops the ID lists, truncates overlong messages and
/// keeps as many issues as fit (at least one). `result_size` and `issue_size`
/// are serialized sizes.
#[verifier::loop_isolation(false)]
pub fn cell_validation_result<F: Fn(&CellValidationResult) -> usize, G: Fn(&ValidationIssue) -> usize>(
    cell: &CellSpec,
    valid: bool,
    issues: Vec<ValidationIssue>,
    preflight: Option<String>,
    issue_offset: usize,
    result_size: F,
    issue_size: G,
) -> (r: CellValidationResult)
    requires
        forall|x: &CellValidationResult| result_size.requires((x,)),
        forall|x: &ValidationIssue| issue_size.requires((x,)),
        issues@.len() < usize::MAX,
    ensures
        ({
            let all = all_issues(valid, issues@, preflight);
            let page = issues_from(all, issue_offset as nat);
            let kept = r.issues@.len();
            let next = if issue_offset + kept > usize::MAX { usize::MAX as int } else { issue_offset + kept };
            &&& r.valid == (valid && preflight is None)
            &&& r.component_count == cell.components@.len()
            &&& r.link_count == cell.links@.len()
            &&& r.issue_count == all.len()
            &&& !r.details_omitted ==> issue_views(r.issues@) == page
            &&& r.details_omitted ==> {
                &&& r.component_ids@.len() == 0
                &&& r.link_ids@.len() == 0
                &&& kept <= page.len()
                &&& page.len() > 0 ==> kept >= 1
                &&& forall|k: int|
                    0 <= k < kept ==> {
                        let v = issue_view(#[trigger] r.issues@[k]);
                        v.0 == page[k].0 && v.1 == page[k].1 && v.2 == truncated_message(page[k].2)
                    }
            }
            &&& !r.details_omitted ==> exists|s: usize|
                #[trigger] report_measured(result_size, page, false, s) && s <= MAX_AGENT_RESPONSE_BYTES
            &&& r.details_omitted ==> (exists|s: usize|
                #[trigger] report_measured(result_size, page, false, s) && s > MAX_AGENT_RESPONSE_BYTES)
                && exists|base: usize, sizes: Seq<usize>|
                #![trigger report_measured(result_size, Seq::empty(), true, base), sizes_measured(issue_size, page, sizes)]
                report_measured(result_size, Seq::empty(), true, base) && sizes_measured(issue_size, page, sizes)
                    && kept == issues_kept(issue_budget(base as nat), sizes, 0)
            &&& next < all.len() ==> r.next_issue_offset == Some(next as usize)
            &&& next >= all.len() ==> r.next_issue_offset is None
        }),
{
    let ghost issues_in = issues@;
    let ghost preflight_in = preflight;
    let ghost valid_in = valid;
    let mut valid = valid;
    let mut issues = issues;
    if valid {
        if let Some(m) = preflight {
            valid = false;
            issues.push(
                ValidationIssue { code: "publication_preflight_failed".to_owned(), path: "/".to_owned(), message: m },
            );
            assert(issue_views(issues@) =~= issue_views(issues_in).push(issue_view(issues@.last())));
            assert(issue_view(issues@.last()) == ("publication_preflight_failed"@, "/"@, preflight_in->Some_0@));
        }
    }
    let ghost all = issue_views(issues@);
    assert(all == all_issues(valid_in, issues_in, preflight_in));
    let summary = topology_summary(cell);
    let issue_count = issues.len();
    let mut paged: Vec<ValidationIssue> = Vec::new();
    let start: usize = if issue_offset < issues.len() {
        issue_offset
    } else {
        issues.len()
    };
    let mut i: usize = start;
    assert(issue_views(paged@) =~= issue_views(issues@).subrange(start as int, i as int));
    while i < issues.len()
        invariant
            start <= i <= issues@.len(),
            issue_views(paged@) == issue_views(issues@).subrange(start as int, i as int),
        decreases issues@.len() - i,
    {
        let ghost before = paged@;
        paged.push(copy_issue(&issues[i]));
        assert(issue_views(paged@) =~= issue_views(before).push(issue_view(issues@[i as int])));
        assert(issue_views(issues@).subrange(start as int, i + 1) =~= issue_views(issues@).subrange(
            start as int,
            i as int,
        ).push(issue_view(issues@[i as int])));
        i = i + 1;
    }
    assert(issue_views(paged@) =~= issues_from(all, issue_offset as nat));
    let mut result = CellValidationResult {
        valid,
        component_count: cell.components.len(),
        link_count: cell.links.len(),
        issue_count,
        next_issue_offset: None,
        details_omitted: false,
        issues: paged,
        component_ids: summary.component_ids,
        link_ids: summary.link_ids,
        warnings: summary.warnings,
    };
    let full_size = result_size(&result);
    let ghost page = issues_from(all, issue_offset as nat);
    assert(report_measured(result_size, page, false, full_size));
    if full_size > MAX_AGENT_RESPONSE_BYTES {
        result.component_ids = Vec::new();
        result.link_ids = Vec::new();
        result.details_omitted = true;
        let mut whole: Vec<ValidationIssue> = Vec::new();
        std::mem::swap(&mut whole, &mut result.issues);
        let mut truncated: Vec<ValidationIssue> = Vec::new();
        let mut sizes: Vec<usize> = Vec::new();
        let mut j: usize = 0;
        while j < whole.len()
            invariant
                j <= whole@.len(),
                truncated@.len() == j,
                sizes@.len() == j,
                forall|x: &ValidationIssue| issue_size.requires((x,)),
                forall|k: int|
                    0 <= k < j ==> {
                        let v = issue_view(#[trigger] truncated@[k]);
                        let w = issue_view(whole@[k]);
                        v.0 == w.0 && v.1 == w.1 && v.2 == truncated_message(w.2)
                    },
                forall|k: int|
                    0 <= k < j ==> #[trigger] issue_measured(
                        issue_size,
                        truncated_issue(issue_view(whole@[k])),
                        sizes@[k],
                    ),
            decreases whole@.len() - j,
        {
            let t = ValidationIssue {
                code: whole[j].code.clone(),
                path: whole[j].path.clone(),
                message: truncate_issue_message(whole[j].message.as_str()),
            };
            let size = issue_size(&t);
            assert(issue_measured(issue_size, truncated_issue(issue_view(whole@[j as int])), size));
            sizes.push(size);
            truncated.push(t);
            j = j + 1;
        }
        assert(issue_views(whole@) == page);
        assert(sizes_measured(issue_size, page, sizes@)) by {
            assert forall|k: int| 0 <= k < sizes@.len() implies #[trigger] issue_measured(
                issue_size,
                truncated_issue(page[k]),
                sizes@[k],
            ) by {
                assert(page[k] == issue_view(whole@[k]));
            }
        }
        let base = result_size(&result);
        assert(issue_views(result.issues@) =~= Seq::<(Seq<char>, Seq<char>, Seq<char>)>::empty());
        assert(report_measured(result_size, Seq::empty(), true, base));
        let kept = fit_issue_count(base, &sizes);
        proof {
            lemma_issues_kept_bounds(issue_budget(base as nat), sizes@, 0);
        }
        let mut k: usize = 0;
        while k < kept && k < truncated.len()
            invariant
                result.issues@.len() == k,
                k <= truncated@.len(),
                k <= kept,
                result.valid == (valid_in && preflight_in is None),
                result.component_count == cell.components@.len(),
                result.link_count == cell.links@.len(),
                result.issue_count == issue_count,
                result.details_omitted,
                result.component_ids@.len() == 0,
                result.link_ids@.len() == 0,
                forall|m: int| 0 <= m < k ==> issue_view(#[trigger] result.issues@[m]) == issue_view(truncated@[m]),
            decreases truncated@.len() - k,
        {
            let ghost before = result.issues@;
            result.issues.push(copy_issue(&truncated[k]));
            k = k + 1;
        }
        assert(kept <= sizes@.len());
        assert(result.issues@.len() == kept);
        assert(report_measured(result_size, Seq::empty(), true, base) && sizes_measured(issue_size, page, sizes@)
            && result.issues@.len() == issues_kept(issue_budget(base as nat), sizes@, 0));
    }
    result.next_issue_offset = next_issue_offset(issue_offset, result.issues.len(), issue_count);
    result
}

} // verus!

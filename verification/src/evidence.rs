//! Deterministic evidence exports: the immutable resource URI, the admission
//! and selection rules of a bundle, and bounded section reads.
use crate::error::{ErrorCode, ToolError, coded_invalid_request, resource_not_found};
use crate::text::{
    chars_eq, chars_of, first_index_exec, has_prefix, join, join_exec, lacks, lemma_first_index_of_bounds,
    lemma_join_lacks, lemma_sort_strings_members, lemma_split_all_join, lemma_split_once_join, push_char, sort_strings,
    sort_strings_exec, split_all, split_all_exec, split_once, string_of, string_views,
    strip_prefix_exec, chars_range,
};
use crate::cursor::{first_match, lemma_first_match_at, lemma_first_match_bounds, lemma_first_match_none};
use crate::limits::{MAX_AGENT_RESPONSE_BYTES, distinct, validate_operation_wait_request};
use crate::json::Json;
use crate::model::OperationPhase;
use crate::pointer::{evidence_pointer, evidence_pointer_result};
use crate::requests::OperationWaitRequest;
use crate::text::{debug_quote, debug_text, str_eq};
use vstd::prelude::*;

verus! {

broadcast use vstd::string::group_string_axioms;

/// Export selection of a closed run's evidence.
#[derive(Clone, Debug)]
pub struct EvidenceExportRequest {
    pub experiment_id: String,
    /// Include full artifact bodies for conservation and reachability oracles.
    pub include_oracle_artifacts: bool,
    /// Optional full bodies for additional operations.
    pub artifact_operation_ids: Vec<String>,
    /// Internal full-bundle assembly.
    pub include_content: bool,
}

/// A section of an evidence bundle.
#[derive(Clone, Copy, Debug, PartialEq, Eq, Structural)]
pub enum EvidenceSection {
    Revision,
    Lock,
    Journal,
    Artifact,
    WorkspaceCapture,
}

/// Bounded read of one evidence section.
#[derive(Clone, Debug)]
pub struct EvidenceSectionReadRequest {
    pub experiment_id: String,
    pub include_oracle_artifacts: bool,
    pub artifact_operation_ids: Vec<String>,
    pub section: EvidenceSection,
    pub pointer: String,
    pub operation_id: Option<String>,
    pub capture_id: Option<String>,
    pub after_sequence: u64,
    pub limit: u32,
}

pub open spec fn uri_prefix() -> Seq<char> {
    "proofstorm://evidence/"@
}

pub open spec fn flag_char(b: bool) -> char {
    if b {
        '1'
    } else {
        '0'
    }
}

/// `proofstorm://evidence/<run>/<digest>?oracles=<0|1>&artifacts=<ids joined by ','>`
pub open spec fn evidence_uri_spec(
    experiment_id: Seq<char>,
    digest: Seq<char>,
    oracles: bool,
    ids: Seq<Seq<char>>,
) -> Seq<char> {
    uri_prefix() + experiment_id + seq!['/'] + digest + "?oracles="@ + seq![flag_char(oracles)]
        + "&artifacts="@ + join(ids, ',')
}

/// Folds the query pairs of an evidence URI: each key once, both required.
pub open spec fn parse_pairs(
    pairs: Seq<Seq<char>>,
    oracles: Option<bool>,
    artifacts: Option<Seq<Seq<char>>>,
) -> Option<(Option<bool>, Option<Seq<Seq<char>>>)>
    decreases pairs.len(),
{
    if pairs.len() == 0 {
        Some((oracles, artifacts))
    } else {
        match split_once(pairs[0], '=') {
            None => None,
            Some((key, value)) => {
                if key == "oracles"@ && oracles.is_none() {
                    if value == "0"@ {
                        parse_pairs(pairs.drop_first(), Some(false), artifacts)
                    } else if value == "1"@ {
                        parse_pairs(pairs.drop_first(), Some(true), artifacts)
                    } else {
                        None
                    }
                } else if key == "artifacts"@ && artifacts.is_none() {
                    parse_pairs(
                        pairs.drop_first(),
                        oracles,
                        Some(
                            if value.len() == 0 {
                                Seq::<Seq<char>>::empty()
                            } else {
                                split_all(value, ',')
                            },
                        ),
                    )
                } else {
                    None
                }
            },
        }
    }
}

/// The run, digest, oracle flag and artifact IDs named by an evidence URI.
pub open spec fn parse_uri_spec(uri: Seq<char>) -> Option<(Seq<char>, Seq<char>, bool, Seq<Seq<char>>)> {
    if !has_prefix(uri, uri_prefix()) {
        None
    } else {
        let rem = uri.skip(uri_prefix().len() as int);
        match split_once(rem, '?') {
            None => None,
            Some((path, query)) => match split_once(path, '/') {
                None => None,
                Some((experiment_id, digest)) => {
                    if experiment_id.len() == 0 || digest.len() == 0 || !lacks(digest, '/') {
                        None
                    } else {
                        match parse_pairs(split_all(query, '&'), None, None) {
                            Some((Some(o), Some(a))) => Some((experiment_id, digest, o, a)),
                            _ => None,
                        }
                    }
                },
            },
        }
    }
}

/// The stable resource URI of an evidence export: the selection it was made
/// with, artifact IDs in sorted order, and the bundle digest.
pub fn evidence_resource_uri(request: &EvidenceExportRequest, digest: &str) -> (r: String)
    ensures
        r@ == evidence_uri_spec(
            request.experiment_id@,
            digest@,
            request.include_oracle_artifacts,
            sort_strings(string_views(request.artifact_operation_ids@)),
        ),
{
    let artifact_ids = sort_strings_exec(&request.artifact_operation_ids);
    let mut r = "proofstorm://evidence/".to_owned();
    r.append(request.experiment_id.as_str());
    push_char(&mut r, '/');
    r.append(digest);
    r.append("?oracles=");
    push_char(&mut r, if request.include_oracle_artifacts { '1' } else { '0' });
    r.append("&artifacts=");
    let joined = join_exec(&artifact_ids, ',');
    r.append(joined.as_str());
    r
}

/// Resolves an evidence URI back to the export selection and expected digest.
pub fn parse_evidence_resource_uri(uri: &str) -> (r: Result<(EvidenceExportRequest, String), ToolError>)
    ensures
        match r {
            Ok((request, digest)) => parse_uri_spec(uri@) == Some(
                (
                    request.experiment_id@,
                    digest@,
                    request.include_oracle_artifacts,
                    string_views(request.artifact_operation_ids@),
                ),
            ) && !request.include_content,
            Err(e) => parse_uri_spec(uri@).is_none() && e.is_not_found(),
        },
{
    let chars = chars_of(uri);
    let rem = match strip_prefix_exec(&chars, "proofstorm://evidence/") {
        None => return Err(resource_not_found("unknown Proofstorm resource URI")),
        Some(rem) => rem,
    };
    let q = match first_index_exec(&rem, '?') {
        None => return Err(resource_not_found("invalid evidence resource URI")),
        Some(q) => q,
    };
    let rem_len = rem.len();
    assert(q < rem_len);
    let path = chars_range(&rem, 0, q);
    let query = chars_range(&rem, q + 1, rem_len);
    assert(path@ =~= rem@.take(q as int));
    assert(query@ =~= rem@.skip(q + 1));
    let s = match first_index_exec(&path, '/') {
        None => return Err(resource_not_found("invalid evidence resource URI")),
        Some(s) => s,
    };
    let path_len = path.len();
    assert(s < path_len);
    let experiment = chars_range(&path, 0, s);
    let digest = chars_range(&path, s + 1, path_len);
    assert(experiment@ =~= path@.take(s as int));
    assert(digest@ =~= path@.skip(s + 1));
    if experiment.len() == 0 || digest.len() == 0 {
        return Err(resource_not_found("invalid evidence resource URI"));
    }
    proof {
        lemma_first_index_of_bounds(digest@, '/');
    }
    if first_index_exec(&digest, '/').is_some() {
        return Err(resource_not_found("invalid evidence resource URI"));
    }
    let pairs = split_all_exec(&query, '&');
    let ghost all = split_all(query@, '&');
    assert(parse_uri_spec(uri@) == match parse_pairs(all, None, None) {
        Some((Some(o), Some(a))) => Some((experiment@, digest@, o, a)),
        _ => None,
    });
    let oracles_key = chars_of("oracles");
    let artifacts_key = chars_of("artifacts");
    let zero = chars_of("0");
    let one = chars_of("1");
    let mut oracles: Option<bool> = None;
    let mut artifacts: Option<Vec<String>> = None;
    let mut i: usize = 0;
    assert(all.skip(0) =~= all);
    while i < pairs.len()
        invariant
            i <= pairs@.len(),
            all == pairs@.map_values(|p: Vec<char>| p@),
            parse_uri_spec(uri@) == match parse_pairs(all, None, None) {
                Some((Some(o), Some(a))) => Some((experiment@, digest@, o, a)),
                _ => None,
            },
            oracles_key@ == "oracles"@,
            artifacts_key@ == "artifacts"@,
            zero@ == "0"@,
            one@ == "1"@,
            parse_pairs(all, None, None) == parse_pairs(
                all.skip(i as int),
                oracles,
                match artifacts {
                    Some(a) => Some(string_views(a@)),
                    None => None,
                },
            ),
        decreases pairs@.len() - i,
    {
        let pair = &pairs[i];
        assert(all.skip(i as int)[0] == pair@);
        assert(all.skip(i as int).drop_first() =~= all.skip(i + 1));
        let e = match first_index_exec(pair, '=') {
            None => return Err(resource_not_found("invalid evidence resource URI")),
            Some(e) => e,
        };
        let pair_len = pair.len();
        assert(e < pair_len);
        let key = chars_range(pair, 0, e);
        let value = chars_range(pair, e + 1, pair_len);
        assert(key@ =~= pair@.take(e as int));
        assert(value@ =~= pair@.skip(e + 1));
        if chars_eq(&key, &oracles_key) && oracles.is_none() {
            if chars_eq(&value, &zero) {
                oracles = Some(false);
            } else if chars_eq(&value, &one) {
                oracles = Some(true);
            } else {
                return Err(resource_not_found("invalid evidence resource URI"));
            }
        } else if chars_eq(&key, &artifacts_key) && artifacts.is_none() {
            if value.len() == 0 {
                let empty: Vec<String> = Vec::new();
                assert(string_views(empty@) =~= Seq::<Seq<char>>::empty());
                artifacts = Some(empty);
            } else {
                let parts = split_all_exec(&value, ',');
                let mut ids: Vec<String> = Vec::new();
                let mut k: usize = 0;
                while k < parts.len()
                    invariant
                        k <= parts@.len(),
                        string_views(ids@) =~= parts@.map_values(|p: Vec<char>| p@).take(k as int),
                    decreases parts@.len() - k,
                {
                    let item = string_of(&parts[k]);
                    let ghost before = string_views(ids@);
                    ids.push(item);
                    assert(string_views(ids@) =~= before.push(parts@[k as int]@));
                    assert(parts@.map_values(|p: Vec<char>| p@)[k as int] == parts@[k as int]@);
                    k = k + 1;
                    assert(string_views(ids@) =~= parts@.map_values(|p: Vec<char>| p@).take(
                        k as int,
                    ));
                }
                assert(parts@.map_values(|p: Vec<char>| p@).take(parts@.len() as int)
                    =~= parts@.map_values(|p: Vec<char>| p@));
                artifacts = Some(ids);
            }
        } else {
            return Err(resource_not_found("invalid evidence resource URI"));
        }
        i = i + 1;
    }
    match (oracles, artifacts) {
        (Some(o), Some(a)) => {
            let request = EvidenceExportRequest {
                experiment_id: string_of(&experiment),
                include_oracle_artifacts: o,
                artifact_operation_ids: a,
                include_content: false,
            };
            Ok((request, string_of(&digest)))
        },
        _ => Err(resource_not_found("invalid evidence resource URI")),
    }
}

/// An evidence URI resolves to exactly the run, digest, oracle flag and
/// artifact list it was built from, whenever the run ID and digest are
/// nonempty and free of `/` and `?`, and every artifact ID is nonempty and
/// free of `,` and `&`.
pub proof fn lemma_evidence_uri_round_trip(
    experiment_id: Seq<char>,
    digest: Seq<char>,
    oracles: bool,
    ids: Seq<Seq<char>>,
)
    requires
        experiment_id.len() > 0,
        lacks(experiment_id, '/'),
        lacks(experiment_id, '?'),
        digest.len() > 0,
        lacks(digest, '/'),
        lacks(digest, '?'),
        forall|i: int|
            0 <= i < ids.len() ==> (#[trigger] ids[i]).len() > 0 && lacks(ids[i], ',') && lacks(
                ids[i],
                '&',
            ),
    ensures
        parse_uri_spec(evidence_uri_spec(experiment_id, digest, oracles, ids)) == Some(
            (experiment_id, digest, oracles, ids),
        ),
{
    reveal_strlit("proofstorm://evidence/");
    reveal_strlit("?oracles=");
    reveal_strlit("&artifacts=");
    reveal_strlit("oracles");
    reveal_strlit("artifacts");
    reveal_strlit("0");
    reveal_strlit("1");
    let j = join(ids, ',');
    let uri = evidence_uri_spec(experiment_id, digest, oracles, ids);
    let path = experiment_id + seq!['/'] + digest;
    let pair1 = "oracles"@ + seq!['='] + seq![flag_char(oracles)];
    let pair2 = "artifacts"@ + seq!['='] + j;
    let query = pair1 + seq!['&'] + pair2;
    let rem = path + seq!['?'] + query;
    assert(uri =~= uri_prefix() + rem);
    assert(uri.take(uri_prefix().len() as int) =~= uri_prefix());
    assert(uri.skip(uri_prefix().len() as int) =~= rem);
    assert forall|k: int| 0 <= k < path.len() implies path[k] != '?' by {
        if k < experiment_id.len() {
            assert(path[k] == experiment_id[k]);
        } else if k > experiment_id.len() {
            assert(path[k] == digest[k - experiment_id.len() - 1]);
        }
    }
    lemma_split_once_join(path, '?', query);
    lemma_split_once_join(experiment_id, '/', digest);
    // the query holds exactly two pairs
    lemma_join_lacks(ids, ',', '&');
    assert forall|k: int| 0 <= k < pair1.len() implies pair1[k] != '&' by {}
    assert forall|k: int| 0 <= k < pair2.len() implies pair2[k] != '&' by {
        if k > 9 {
            assert(pair2[k] == j[k - 10]);
        }
    }
    let pairs = seq![pair1, pair2];
    assert(join(pairs, '&') =~= query) by {
        assert(pairs.drop_last() =~= seq![pair1]);
        assert(join(pairs.drop_last(), '&') == pair1);
        assert(pairs.last() == pair2);
    }
    lemma_split_all_join(pairs, '&');
    assert(split_all(query, '&') == pairs);
    // each pair splits at its first '='
    lemma_split_once_join("oracles"@, '=', seq![flag_char(oracles)]);
    lemma_split_once_join("artifacts"@, '=', j);
    assert("oracles"@ != "artifacts"@);
    assert(pairs.drop_first() =~= seq![pair2]);
    assert(seq![pair2].drop_first() =~= Seq::<Seq<char>>::empty());
    let artifacts = if j.len() == 0 {
        Seq::<Seq<char>>::empty()
    } else {
        split_all(j, ',')
    };
    if ids.len() == 0 {
        assert(j =~= Seq::<char>::empty());
        assert(artifacts =~= ids);
    } else {
        lemma_split_all_join(ids, ',');
        lemma_join_nonempty(ids, ',');
        assert(artifacts == ids);
    }
    assert(split_once(pair1, '=') == Some(("oracles"@, seq![flag_char(oracles)])));
    assert(split_once(pair2, '=') == Some(("artifacts"@, j)));
    if oracles {
        assert(seq![flag_char(oracles)] =~= "1"@);
    } else {
        assert(seq![flag_char(oracles)] =~= "0"@);
        assert(seq![flag_char(oracles)] != "1"@);
    }
    assert(parse_pairs(seq![pair2], Some(oracles), None) == parse_pairs(
        Seq::<Seq<char>>::empty(),
        Some(oracles),
        Some(artifacts),
    ));
    assert(parse_pairs(pairs, None, None) == parse_pairs(seq![pair2], Some(oracles), None));
}

proof fn lemma_join_nonempty(items: Seq<Seq<char>>, sep: char)
    requires
        items.len() > 0,
        forall|i: int| 0 <= i < items.len() ==> (#[trigger] items[i]).len() > 0,
    ensures
        join(items, sep).len() > 0,
    decreases items.len(),
{
    if items.len() > 1 {
        assert(items.last() == items[items.len() - 1]);
    } else {
        assert(items[0].len() > 0);
    }
}


// ---------------------------------------------------------------------------
// Bundle admission and artifact selection
// ---------------------------------------------------------------------------

/// What a bundle's admission reads of one journaled action.
#[derive(Clone, Debug)]
pub struct EvidenceActionRecord {
    pub id: String,
    pub sequence: u64,
    /// The operation kind's wire name, such as `reachability_oracle`.
    pub kind: String,
    pub phase: OperationPhase,
    pub has_artifact: bool,
}

pub open spec fn is_oracle_kind(kind: Seq<char>) -> bool {
    kind == "conservation_oracle"@ || kind == "reachability_oracle"@
}

pub open spec fn action_ids(actions: Seq<EvidenceActionRecord>) -> Seq<Seq<char>> {
    actions.map_values(|a: EvidenceActionRecord| a.id@)
}

/// An action's artifact body is part of the bundle when named explicitly, or
/// when it is an oracle and oracle artifacts are included.
pub open spec fn selected_for_bundle(
    explicit: Seq<Seq<char>>,
    include_oracles: bool,
    action: EvidenceActionRecord,
) -> bool {
    explicit.contains(action.id@) || (include_oracles && is_oracle_kind(action.kind@))
}

pub open spec fn unfinished(phase: OperationPhase) -> bool {
    phase == OperationPhase::Pending || phase == OperationPhase::Running
}

/// The first admission rule an export breaks, in the order they are checked.
pub open spec fn evidence_admission(
    explicit: Seq<Seq<char>>,
    include_oracles: bool,
    experiment_closed: bool,
    actions: Seq<EvidenceActionRecord>,
) -> Option<ErrorCode> {
    if !distinct(explicit) {
        Some(ErrorCode::EvidenceArtifactDuplicate)
    } else if !experiment_closed {
        Some(ErrorCode::EvidenceExperimentActive)
    } else if exists|i: int| 0 <= i < actions.len() && unfinished(#[trigger] actions[i].phase) {
        Some(ErrorCode::EvidenceJournalIncomplete)
    } else if exists|k: int| 0 <= k < explicit.len() && !action_ids(actions).contains(#[trigger] explicit[k]) {
        Some(ErrorCode::EvidenceArtifactUnknown)
    } else if exists|i: int|
        0 <= i < actions.len() && selected_for_bundle(explicit, include_oracles, #[trigger] actions[i])
            && !actions[i].has_artifact {
        Some(ErrorCode::EvidenceArtifactMissing)
    } else {
        None
    }
}

fn is_oracle_kind_exec(kind: &str) -> (r: bool)
    ensures
        r == is_oracle_kind(kind@),
{
    str_eq(kind, "conservation_oracle") || str_eq(kind, "reachability_oracle")
}

fn contains_id(ids: &Vec<String>, id: &str) -> (r: bool)
    ensures
        r == string_views(ids@).contains(id@),
{
    let mut i: usize = 0;
    while i < ids.len()
        invariant
            i <= ids@.len(),
            forall|k: int| 0 <= k < i ==> ids@[k]@ != id@,
        decreases ids@.len() - i,
    {
        if str_eq(ids[i].as_str(), id) {
            assert(string_views(ids@)[i as int] == id@);
            return true;
        }
        i = i + 1;
    }
    assert forall|k: int| 0 <= k < ids@.len() implies string_views(ids@)[k] != id@ by {
        assert(string_views(ids@)[k] == ids@[k]@);
    }
    false
}

/// The refusal of an explicit artifact ID that is not in the journal.
pub open spec fn unknown_operation_message(id: Seq<char>) -> Seq<char> {
    "operation "@ + debug_text(id) + " is not in the experiment journal"@
}

/// The refusal of a selected action that has no terminal artifact.
pub open spec fn missing_artifact_message(id: Seq<char>) -> Seq<char> {
    "operation "@ + debug_text(id) + " has no terminal artifact"@
}

/// `operation <id:?> <rest>`.
fn operation_message(id: &str, rest: &str) -> (r: String)
    ensures
        r@ == "operation "@ + debug_text(id@) + rest@,
{
    let mut m = String::new();
    m.append("operation ");
    let quoted = debug_quote(id);
    m.append(quoted.as_str());
    m.append(rest);
    m
}

/// Admits an export of a closed run and selects, in journal order, the
/// actions whose artifact bodies the bundle embeds.
pub fn select_evidence_artifacts(
    request: &EvidenceExportRequest,
    experiment_closed: bool,
    actions: &Vec<EvidenceActionRecord>,
) -> (r: Result<Vec<usize>, ToolError>)
    ensures
        match evidence_admission(
            string_views(request.artifact_operation_ids@),
            request.include_oracle_artifacts,
            experiment_closed,
            actions@,
        ) {
            Some(code) => r matches Err(e) && e.is_coded(code) && (code == ErrorCode::EvidenceArtifactUnknown
                ==> exists|j: int|
                0 <= j < request.artifact_operation_ids@.len() && !action_ids(actions@).contains(
                    #[trigger] request.artifact_operation_ids@[j]@,
                ) && e.message@ == unknown_operation_message(request.artifact_operation_ids@[j]@)) && (code
                == ErrorCode::EvidenceArtifactMissing ==> exists|i: int|
                0 <= i < actions@.len() && selected_for_bundle(
                    string_views(request.artifact_operation_ids@),
                    request.include_oracle_artifacts,
                    #[trigger] actions@[i],
                ) && !actions@[i].has_artifact && e.message@ == missing_artifact_message(actions@[i].id@)),
            None => r matches Ok(selected) && {
                &&& forall|k: int| 0 <= k < selected@.len() ==> #[trigger] selected@[k] < actions@.len()
                    && selected_for_bundle(
                        string_views(request.artifact_operation_ids@),
                        request.include_oracle_artifacts,
                        actions@[selected@[k] as int],
                    )
                &&& forall|a: int, b: int| 0 <= a < b < selected@.len() ==> selected@[a] < selected@[b]
                &&& forall|i: int|
                    0 <= i < actions@.len() && selected_for_bundle(
                        string_views(request.artifact_operation_ids@),
                        request.include_oracle_artifacts,
                        #[trigger] actions@[i],
                    ) ==> selected@.contains(i as usize)
                &&& request.include_oracle_artifacts ==> forall|i: int|
                    0 <= i < actions@.len() && (#[trigger] actions@[i].kind@ == "conservation_oracle"@
                        || actions@[i].kind@ == "reachability_oracle"@) ==> selected@.contains(i as usize)
                &&& forall|k: int|
                    0 <= k < selected@.len() ==> {
                        let a = actions@[#[trigger] selected@[k] as int];
                        ||| string_views(request.artifact_operation_ids@).contains(a.id@)
                        ||| request.include_oracle_artifacts && (a.kind@ == "conservation_oracle"@ || a.kind@
                            == "reachability_oracle"@)
                    }
            },
        },
{
    let ids = &request.artifact_operation_ids;
    let ghost explicit = string_views(ids@);
    let wait = OperationWaitRequest { operation_ids: ids.clone(), timeout_seconds: 1 };
    assert(string_views(wait.operation_ids@) == explicit);
    if validate_operation_wait_request(&wait).is_err() && ids.len() > 0 {
        return Err(coded_invalid_request(ErrorCode::EvidenceArtifactDuplicate, "artifact operation IDs must be unique"));
    }
    assert(distinct(explicit));
    if !experiment_closed {
        return Err(coded_invalid_request(ErrorCode::EvidenceExperimentActive, "evidence export requires a closed experiment"));
    }
    let mut i: usize = 0;
    while i < actions.len()
        invariant
            i <= actions@.len(),
            explicit == string_views(ids@),
            ids@ == request.artifact_operation_ids@,
            distinct(explicit),
            experiment_closed,
            forall|k: int| 0 <= k < i ==> !unfinished(#[trigger] actions@[k].phase),
        decreases actions@.len() - i,
    {
        if actions[i].phase == OperationPhase::Pending || actions[i].phase == OperationPhase::Running {
            assert(unfinished(actions@[i as int].phase));
            assert(distinct(string_views(request.artifact_operation_ids@)));
            assert(experiment_closed);
            assert(exists|i: int| 0 <= i < actions@.len() && unfinished(#[trigger] actions@[i].phase));
            return Err(coded_invalid_request(ErrorCode::EvidenceJournalIncomplete, "all experiment actions must be terminal before evidence export"));
        }
        i = i + 1;
    }
    let mut known: Vec<String> = Vec::new();
    let mut i: usize = 0;
    while i < actions.len()
        invariant
            i <= actions@.len(),
            string_views(known@) =~= action_ids(actions@).take(i as int),
            explicit == string_views(ids@),
            ids@ == request.artifact_operation_ids@,
            distinct(explicit),
            experiment_closed,
            forall|k: int| 0 <= k < actions@.len() ==> !unfinished(#[trigger] actions@[k].phase),
        decreases actions@.len() - i,
    {
        let ghost before = string_views(known@);
        known.push(actions[i].id.clone());
        assert(string_views(known@) =~= before.push(actions@[i as int].id@));
        i = i + 1;
    }
    assert(action_ids(actions@).take(actions@.len() as int) =~= action_ids(actions@));
    let mut k: usize = 0;
    while k < ids.len()
        invariant
            k <= ids@.len(),
            explicit == string_views(ids@),
            ids@ == request.artifact_operation_ids@,
            distinct(explicit),
            experiment_closed,
            forall|k: int| 0 <= k < actions@.len() ==> !unfinished(#[trigger] actions@[k].phase),
            string_views(known@) == action_ids(actions@),
            forall|j: int| 0 <= j < k ==> action_ids(actions@).contains(#[trigger] explicit[j]),
        decreases ids@.len() - k,
    {
        if !contains_id(&known, ids[k].as_str()) {
            assert(!action_ids(actions@).contains(explicit[k as int]));
            assert(!(exists|i: int| 0 <= i < actions@.len() && unfinished(#[trigger] actions@[i].phase)));
            assert(exists|k: int| 0 <= k < explicit.len() && !action_ids(actions@).contains(#[trigger] explicit[k]));
            let message = operation_message(ids[k].as_str(), " is not in the experiment journal");
            assert(explicit[k as int] == ids@[k as int]@);
            return Err(coded_invalid_request(ErrorCode::EvidenceArtifactUnknown, message.as_str()));
        }
        k = k + 1;
    }
    let mut selected: Vec<usize> = Vec::new();
    let mut i: usize = 0;
    while i < actions.len()
        invariant
            i <= actions@.len(),
            explicit == string_views(ids@),
            ids@ == request.artifact_operation_ids@,
            distinct(explicit),
            experiment_closed,
            forall|k: int| 0 <= k < actions@.len() ==> !unfinished(#[trigger] actions@[k].phase),
            forall|j: int| 0 <= j < explicit.len() ==> action_ids(actions@).contains(#[trigger] explicit[j]),
            forall|k: int| 0 <= k < selected@.len() ==> #[trigger] selected@[k] < i
                && selected_for_bundle(explicit, request.include_oracle_artifacts, actions@[selected@[k] as int]),
            forall|a: int, b: int| 0 <= a < b < selected@.len() ==> selected@[a] < selected@[b],
            forall|j: int| 0 <= j < i && selected_for_bundle(explicit, request.include_oracle_artifacts, #[trigger] actions@[j])
                ==> selected@.contains(j as usize) && actions@[j].has_artifact,
        decreases actions@.len() - i,
    {
        let action = &actions[i];
        if contains_id(ids, action.id.as_str()) || request.include_oracle_artifacts && is_oracle_kind_exec(action.kind.as_str()) {
            if !action.has_artifact {
                assert(selected_for_bundle(explicit, request.include_oracle_artifacts, actions@[i as int]));
                assert(!(exists|i: int| 0 <= i < actions@.len() && unfinished(#[trigger] actions@[i].phase)));
                assert(!(exists|k: int| 0 <= k < explicit.len() && !action_ids(actions@).contains(#[trigger] explicit[k])));
                assert(exists|i: int| 0 <= i < actions@.len() && selected_for_bundle(explicit, request.include_oracle_artifacts, #[trigger] actions@[i]) && !actions@[i].has_artifact);
                let message = operation_message(action.id.as_str(), " has no terminal artifact");
                return Err(coded_invalid_request(ErrorCode::EvidenceArtifactMissing, message.as_str()));
            }
            let ghost before = selected@;
            selected.push(i);
            assert(selected@[selected@.len() - 1] == i);
            assert forall|j: int| 0 <= j < i + 1 && selected_for_bundle(explicit, request.include_oracle_artifacts, #[trigger] actions@[j])
                implies selected@.contains(j as usize) && actions@[j].has_artifact by {
                if j < i {
                    let w = choose|w: int| 0 <= w < before.len() && before[w] == j as usize;
                    assert(selected@[w] == j as usize);
                }
            }
        }
        i = i + 1;
    }
    Ok(selected)
}

// ---------------------------------------------------------------------------
// Section reads
// ---------------------------------------------------------------------------

/// Indices of the journal actions a page considers: those after the boundary,
/// at most `limit + 1`, so the page knows whether more follow.
pub open spec fn journal_candidates_ok(sequences: Seq<u64>, after: u64, limit: nat, r: Seq<usize>) -> bool {
    &&& forall|k: int| 0 <= k < r.len() ==> #[trigger] r[k] < sequences.len() && sequences[r[k] as int] > after
    &&& forall|a: int, b: int| 0 <= a < b < r.len() ==> r[a] < r[b]
    &&& r.len() <= limit + 1
    &&& forall|i: int| 0 <= i < sequences.len() && sequences[i] > after && !r.contains(i as usize) ==> (
        r.len() == limit + 1 && r[r.len() - 1] < i)
}

/// Validates a journal page size and picks its candidate actions.
pub fn journal_candidates(sequences: &Vec<u64>, after: u64, limit: u32) -> (r: Result<Vec<usize>, ToolError>)
    ensures
        r is Ok <==> 1 <= limit <= 50,
        r matches Err(e) ==> e.is_coded(ErrorCode::EvidenceSectionLimitInvalid),
        r matches Ok(c) ==> journal_candidates_ok(sequences@, after, limit as nat, c@),
{
    if !(1 <= limit && limit <= 50) {
        return Err(coded_invalid_request(ErrorCode::EvidenceSectionLimitInvalid, "journal limit must be between 1 and 50"));
    }
    let cap: usize = limit as usize + 1;
    let mut r: Vec<usize> = Vec::new();
    let mut i: usize = 0;
    while i < sequences.len() && r.len() < cap
        invariant
            i <= sequences@.len(),
            cap == limit + 1,
            r@.len() <= cap,
            forall|k: int| 0 <= k < r@.len() ==> #[trigger] r@[k] < i && sequences@[r@[k] as int] > after,
            forall|a: int, b: int| 0 <= a < b < r@.len() ==> r@[a] < r@[b],
            forall|j: int| 0 <= j < i && sequences@[j] > after ==> r@.contains(j as usize),
        decreases sequences@.len() - i,
    {
        if sequences[i] > after {
            let ghost before = r@;
            r.push(i);
            assert(r@[r@.len() - 1] == i);
            assert forall|j: int| 0 <= j < i + 1 && sequences@[j] > after implies r@.contains(j as usize) by {
                if j < i {
                    let w = choose|w: int| 0 <= w < before.len() && before[w] == j as usize;
                    assert(r@[w] == j as usize);
                }
            }
        }
        i = i + 1;
    }
    assert forall|j: int| 0 <= j < sequences@.len() && sequences@[j] > after && !r@.contains(j as usize)
        implies r@.len() == limit + 1 && r@[r@.len() - 1] < j by {
        if j < i {
        } else {
            assert(r@.len() == cap);
            assert(r@[r@.len() - 1] < i);
        }
    }
    Ok(r)
}

/// Continuation of a journal page that ends before `end`.
pub open spec fn journal_next(candidates: Seq<u64>, limit: nat, end: nat) -> Option<u64> {
    let page_len = if candidates.len() < limit { candidates.len() } else { limit };
    let has_more = candidates.len() > limit || end < page_len;
    if has_more && end > 0 {
        Some(candidates[end - 1])
    } else {
        None
    }
}

/// The journal page length before any shrinking: `limit` candidates at most.
pub open spec fn journal_page_len(candidates: Seq<u64>, limit: nat) -> nat {
    if candidates.len() < limit {
        candidates.len()
    } else {
        limit
    }
}

/// Whether the journal page of the first `end` candidates was measured and
/// found over the budget.
pub open spec fn journal_too_large<F: Fn(usize, Option<u64>) -> usize>(
    measure: F,
    candidates: Seq<u64>,
    limit: nat,
    end: usize,
) -> bool {
    exists|s: usize| #[trigger] measure.ensures((end, journal_next(candidates, limit, end as nat)), s) && s
        > MAX_AGENT_RESPONSE_BYTES
}

/// Shrinks a journal page until its response fits the agent budget.
///
/// `candidate_sequences` are the candidates' sequences; `measure(end, next)`
/// is the wire size of the response holding the first `end` candidates.
pub fn fit_journal_page<F: Fn(usize, Option<u64>) -> usize>(
    candidate_sequences: &Vec<u64>,
    limit: usize,
    measure: F,
) -> (r: Result<(usize, Option<u64>), ToolError>)
    requires
        forall|e: usize, n: Option<u64>| measure.requires((e, n)),
    ensures
        match r {
            Ok((end, next)) => {
                &&& end <= limit && end <= candidate_sequences@.len()
                &&& end > 0 || journal_page_len(candidate_sequences@, limit as nat) == 0
                &&& next == journal_next(candidate_sequences@, limit as nat, end as nat)
                &&& exists|s: usize| #[trigger] measure.ensures((end, next), s) && s <= MAX_AGENT_RESPONSE_BYTES
                &&& forall|e: usize|
                    end < e <= journal_page_len(candidate_sequences@, limit as nat) ==> #[trigger] journal_too_large(
                        measure,
                        candidate_sequences@,
                        limit as nat,
                        e,
                    )
            },
            Err(e) => {
                &&& e.is_coded(ErrorCode::EvidenceActionTooLarge)
                &&& forall|e: usize|
                    0 < e <= journal_page_len(candidate_sequences@, limit as nat) ==> #[trigger] journal_too_large(
                        measure,
                        candidate_sequences@,
                        limit as nat,
                        e,
                    )
                &&& journal_page_len(candidate_sequences@, limit as nat) == 0 ==> journal_too_large(
                    measure,
                    candidate_sequences@,
                    limit as nat,
                    0,
                )
            },
        },
{
    let n = candidate_sequences.len();
    let page_len: usize = if n < limit { n } else { limit };
    let source_has_more = n > limit;
    let mut end = page_len;
    loop
        invariant
            end <= page_len,
            page_len == (if n < limit { n } else { limit }),
            n == candidate_sequences@.len(),
            source_has_more == (n > limit),
            page_len == journal_page_len(candidate_sequences@, limit as nat),
            end > 0 || page_len == 0,
            forall|e: usize|
                end < e <= page_len ==> #[trigger] journal_too_large(measure, candidate_sequences@, limit as nat, e),
            forall|e: usize, x: Option<u64>| measure.requires((e, x)),
        decreases end,
    {
        let has_more = source_has_more || end < page_len;
        let next = if has_more && end > 0 { Some(candidate_sequences[end - 1]) } else { None };
        let size = measure(end, next);
        if size <= MAX_AGENT_RESPONSE_BYTES {
            assert(next == journal_next(candidate_sequences@, limit as nat, end as nat));
            return Ok((end, next));
        }
        assert(next == journal_next(candidate_sequences@, limit as nat, end as nat));
        assert(journal_too_large(measure, candidate_sequences@, limit as nat, end));
        if end <= 1 {
            return Err(coded_invalid_request(ErrorCode::EvidenceActionTooLarge, "one evidence journal action exceeds the agent response budget"));
        }
        end = end - 1;
    }
}

/// The artifact an artifact-section read names.
pub fn find_artifact(operation_id: Option<&str>, artifact_operation_ids: &Vec<String>) -> (r: Result<usize, ToolError>)
    ensures
        operation_id is None ==> (r matches Err(e) && e.is_coded(ErrorCode::EvidenceOperationIdRequired)),
        operation_id matches Some(id) ==> match first_match(string_views(artifact_operation_ids@), id@) {
            Some(i) => r matches Ok(k) && k == i,
            None => r matches Err(e) && e.is_coded(ErrorCode::EvidenceArtifactNotSelected),
        },
{
    if operation_id.is_none() {
        return Err(coded_invalid_request(ErrorCode::EvidenceOperationIdRequired, "operation_id is required for an artifact section read"));
    }
    let id = operation_id.unwrap();
    match find_index(id, artifact_operation_ids) {
        Some(k) => Ok(k),
        None => Err(coded_invalid_request(ErrorCode::EvidenceArtifactNotSelected, "operation_id is not present in the selected evidence artifacts")),
    }
}

/// The workspace capture a capture-section read names.
pub fn find_capture(capture_id: Option<&str>, capture_ids: &Vec<String>) -> (r: Result<usize, ToolError>)
    ensures
        capture_id is None ==> (r matches Err(e) && e.is_coded(ErrorCode::EvidenceCaptureIdRequired)),
        capture_id matches Some(id) ==> match first_match(string_views(capture_ids@), id@) {
            Some(i) => r matches Ok(k) && k == i,
            None => r matches Err(e) && e.is_coded(ErrorCode::EvidenceCaptureUnknown),
        },
{
    if capture_id.is_none() {
        return Err(coded_invalid_request(ErrorCode::EvidenceCaptureIdRequired, "capture_id is required for workspace capture reads"));
    }
    let id = capture_id.unwrap();
    match find_index(id, capture_ids) {
        Some(k) => Ok(k),
        None => Err(coded_invalid_request(ErrorCode::EvidenceCaptureUnknown, "capture_id is not attached to this run")),
    }
}

/// Index of the first string equal to `id`.
pub fn find_index(id: &str, items: &Vec<String>) -> (r: Option<usize>)
    ensures
        match first_match(string_views(items@), id@) {
            Some(i) => r matches Some(k) && k == i,
            None => r.is_none(),
        },
{
    proof {
        lemma_first_match_bounds(string_views(items@), id@);
    }
    let mut i: usize = 0;
    while i < items.len()
        invariant
            i <= items@.len(),
            forall|k: int| 0 <= k < i ==> items@[k]@ != id@,
        decreases items@.len() - i,
    {
        if str_eq(items[i].as_str(), id) {
            proof {
                lemma_first_match_at(string_views(items@), id@, i as int);
            }
            return Some(i);
        }
        i = i + 1;
    }
    proof {
        lemma_first_match_none(string_views(items@), id@);
    }
    None
}

/// Saturating conversion of a count to `u32`.
pub fn saturating_count(n: usize) -> (r: u32)
    ensures
        r == (if n > u32::MAX { u32::MAX as int } else { n as int }),
{
    if n > u32::MAX as usize {
        u32::MAX
    } else {
        n as u32
    }
}

/// Reads a non-journal evidence section at a pointer: the revision, its lock,
/// the selected artifact named by `operation_id`, or the workspace capture
/// named by `capture_id`. `artifacts` and `captures` hold the documents in
/// the order of their IDs.
pub fn evidence_section_value<'a>(
    section: EvidenceSection,
    revision: &'a Json,
    lock: &'a Json,
    artifact_ids: &Vec<String>,
    artifacts: &'a Vec<Json>,
    capture_ids: &Vec<String>,
    captures: &'a Vec<Json>,
    operation_id: Option<&str>,
    capture_id: Option<&str>,
    pointer: &str,
) -> (r: Result<&'a Json, ToolError>)
    requires
        artifacts@.len() == artifact_ids@.len(),
        captures@.len() == capture_ids@.len(),
        section != EvidenceSection::Journal,
    ensures
        match section {
            EvidenceSection::Revision => evidence_pointer_result(*revision, pointer@, "revision"@, r),
            EvidenceSection::Lock => evidence_pointer_result(*lock, pointer@, "lock"@, r),
            EvidenceSection::Artifact => match operation_id {
                None => r matches Err(e) && e.is_coded(ErrorCode::EvidenceOperationIdRequired),
                Some(id) => match first_match(string_views(artifact_ids@), id@) {
                    None => r matches Err(e) && e.is_coded(ErrorCode::EvidenceArtifactNotSelected),
                    Some(k) => evidence_pointer_result(artifacts@[k], pointer@, "artifact"@, r),
                },
            },
            _ => match capture_id {
                None => r matches Err(e) && e.is_coded(ErrorCode::EvidenceCaptureIdRequired),
                Some(id) => match first_match(string_views(capture_ids@), id@) {
                    None => r matches Err(e) && e.is_coded(ErrorCode::EvidenceCaptureUnknown),
                    Some(k) => evidence_pointer_result(captures@[k], pointer@, "workspace_capture"@, r),
                },
            },
        },
{
    proof {
        lemma_first_match_bounds(string_views(artifact_ids@), match operation_id { Some(id) => id@, None => Seq::empty() });
        lemma_first_match_bounds(string_views(capture_ids@), match capture_id { Some(id) => id@, None => Seq::empty() });
    }
    match section {
        EvidenceSection::Revision => evidence_pointer(revision, pointer, "revision"),
        EvidenceSection::Lock => evidence_pointer(lock, pointer, "lock"),
        EvidenceSection::Artifact => {
            let k = match find_artifact(operation_id, artifact_ids) {
                Ok(k) => k,
                Err(e) => {
                    return Err(e);
                },
            };
            evidence_pointer(&artifacts[k], pointer, "artifact")
        },
        _ => {
            let k = match find_capture(capture_id, capture_ids) {
                Ok(k) => k,
                Err(e) => {
                    return Err(e);
                },
            };
            evidence_pointer(&captures[k], pointer, "workspace_capture")
        },
    }
}

/// The journal's sequences strictly increase.
pub open spec fn journal_ordered(sequences: Seq<u64>) -> bool {
    forall|i: int, j: int| 0 <= i < j < sequences.len() ==> sequences[i] < sequences[j]
}

/// The position of the first journal action after the boundary.
pub open spec fn first_after(sequences: Seq<u64>, after: u64) -> nat
    decreases sequences.len(),
{
    if sequences.len() == 0 {
        0
    } else if sequences[0] > after {
        0
    } else {
        1 + first_after(sequences.drop_first(), after)
    }
}

/// The candidate sequences of a journal page after `after`: the next
/// `limit + 1` actions.
pub open spec fn journal_window(sequences: Seq<u64>, after: u64, limit: nat) -> Seq<u64> {
    let rest = sequences.skip(first_after(sequences, after) as int);
    if rest.len() <= limit + 1 {
        rest
    } else {
        rest.take((limit + 1) as int)
    }
}

/// Whether `ends` are the page lengths of journal reads followed from `after`:
/// each page keeps a nonempty prefix of its candidates (none only when none
/// remain), and the next read starts after the page's last sequence.
pub open spec fn journal_pages_follow(sequences: Seq<u64>, after: u64, limit: nat, ends: Seq<nat>) -> bool
    decreases ends.len(),
{
    let candidates = journal_window(sequences, after, limit);
    &&& ends.len() > 0
    &&& ends[0] <= journal_page_len(candidates, limit)
    &&& (candidates.len() > 0 ==> ends[0] > 0)
    &&& match journal_next(candidates, limit, ends[0]) {
        None => ends.len() == 1,
        Some(next) => ends.len() > 1 && journal_pages_follow(sequences, next, limit, ends.drop_first()),
    }
}

/// The sequences those pages return, one after the other.
pub open spec fn journal_pages_listing(sequences: Seq<u64>, after: u64, limit: nat, ends: Seq<nat>) -> Seq<u64>
    decreases ends.len(),
{
    if ends.len() == 0 {
        Seq::empty()
    } else {
        let candidates = journal_window(sequences, after, limit);
        let page = candidates.take(ends[0] as int);
        match journal_next(candidates, limit, ends[0]) {
            Some(next) => page + journal_pages_listing(sequences, next, limit, ends.drop_first()),
            None => page,
        }
    }
}

proof fn lemma_first_after_bounds(sequences: Seq<u64>, after: u64)
    ensures
        first_after(sequences, after) <= sequences.len(),
        forall|i: int| 0 <= i < first_after(sequences, after) ==> sequences[i] <= after,
        first_after(sequences, after) < sequences.len() ==> sequences[first_after(sequences, after) as int] > after,
    decreases sequences.len(),
{
    if sequences.len() > 0 && sequences[0] <= after {
        lemma_first_after_bounds(sequences.drop_first(), after);
        assert forall|i: int| 0 <= i < first_after(sequences, after) implies sequences[i] <= after by {
            if i > 0 {
                assert(sequences[i] == sequences.drop_first()[i - 1]);
            }
        }
    }
}

/// In an ordered journal, the actions after the `k`-th one start right after it.
proof fn lemma_first_after_at(sequences: Seq<u64>, k: int)
    requires
        journal_ordered(sequences),
        0 <= k < sequences.len(),
    ensures
        first_after(sequences, sequences[k]) == k + 1,
    decreases sequences.len(),
{
    lemma_first_after_bounds(sequences, sequences[k]);
    let p = first_after(sequences, sequences[k]) as int;
    if p <= k {
        if p < k {
            assert(sequences[p] < sequences[k]);
        }
        assert(p < sequences.len());
        assert(sequences[p] > sequences[k]);
    }
    if p > k + 1 {
        assert(sequences[k + 1] <= sequences[k]);
        assert(sequences[k] < sequences[k + 1]);
    }
}

/// Paging an ordered evidence journal from a boundary loses and repeats no
/// action: reading page after page, each starting after the previous page's
/// last sequence, returns every action after the boundary exactly once, in
/// journal order.
pub proof fn lemma_journal_pages_list_every_action(sequences: Seq<u64>, after: u64, limit: nat, ends: Seq<nat>)
    requires
        journal_ordered(sequences),
        1 <= limit,
        journal_pages_follow(sequences, after, limit, ends),
    ensures
        journal_pages_listing(sequences, after, limit, ends) == sequences.skip(first_after(sequences, after) as int),
    decreases ends.len(),
{
    lemma_first_after_bounds(sequences, after);
    let p = first_after(sequences, after) as int;
    let rest = sequences.skip(p);
    let candidates = journal_window(sequences, after, limit);
    let end = ends[0];
    let page = candidates.take(end as int);
    match journal_next(candidates, limit, end) {
        None => {
            assert(page =~= rest);
        },
        Some(next) => {
            assert(candidates[end - 1] == sequences[p + end - 1]);
            lemma_first_after_at(sequences, p + end - 1);
            lemma_journal_pages_list_every_action(sequences, next, limit, ends.drop_first());
            assert(page + sequences.skip(p + end) =~= rest);
        },
    }
}

proof fn lemma_candidates_consecutive(sequences: Seq<u64>, after: u64, limit: nat, r: Seq<usize>, k: int)
    requires
        journal_ordered(sequences),
        sequences.len() <= usize::MAX,
        journal_candidates_ok(sequences, after, limit, r),
        0 <= k < r.len(),
    ensures
        forall|j: int| 0 <= j <= k ==> r[j] == first_after(sequences, after) + j,
    decreases k,
{
    lemma_first_after_bounds(sequences, after);
    let p = first_after(sequences, after) as int;
    if k > 0 {
        lemma_candidates_consecutive(sequences, after, limit, r, k - 1);
        assert(r[k - 1] < r[k]);
    }
    assert(r[k] >= p) by {
        if r[k] < p {
            assert(sequences[r[k] as int] <= after);
        }
    }
    if r[k] > p + k {
        let i = p + k;
        assert(i < sequences.len());
        assert(sequences[i] > after) by {
            if i > p {
                assert(sequences[p] < sequences[i]);
            }
        }
        assert(!r.contains(i as usize)) by {
            if r.contains(i as usize) {
                let w = choose|w: int| 0 <= w < r.len() && r[w] == i as usize;
                if w < k {
                    assert(r[w] == p + w);
                } else if w > k {
                    assert(r[k] < r[w]);
                }
            }
        }
        assert(r[r.len() - 1] < i);
        if k < r.len() - 1 {
            assert(r[k] < r[r.len() - 1]);
        }
    }
}

/// In an ordered journal, the candidates a page considers are exactly the next
/// `limit + 1` actions after the boundary (`journal_window`).
pub proof fn lemma_journal_candidates_window(sequences: Seq<u64>, after: u64, limit: nat, r: Seq<usize>)
    requires
        journal_ordered(sequences),
        sequences.len() <= usize::MAX,
        journal_candidates_ok(sequences, after, limit, r),
    ensures
        r.map_values(|i: usize| sequences[i as int]) == journal_window(sequences, after, limit),
{
    lemma_first_after_bounds(sequences, after);
    let p = first_after(sequences, after) as int;
    if r.len() > 0 {
        lemma_candidates_consecutive(sequences, after, limit, r, r.len() - 1);
    }
    let rest = sequences.skip(p);
    let want: int = if rest.len() <= limit + 1 { rest.len() as int } else { (limit + 1) as int };
    if r.len() < want {
        let i = p + r.len();
        assert(i < sequences.len());
        assert(sequences[i] > after) by {
            if i > p {
                assert(sequences[p] < sequences[i]);
            }
        }
        assert(!r.contains(i as usize)) by {
            if r.contains(i as usize) {
                let w = choose|w: int| 0 <= w < r.len() && r[w] == i as usize;
                assert(r[w] == p + w);
            }
        }
    }
    if r.len() > 0 {
        assert(r[r.len() - 1] == p + r.len() - 1);
    }
    assert(r.len() == want);
    assert(r.map_values(|i: usize| sequences[i as int]) =~= journal_window(sequences, after, limit));
}

/// The resource URI of an export resolves to its run, digest and oracle flag,
/// and to its artifact IDs in sorted order, whatever order the request named
/// them in, whenever the run ID and digest are nonempty and free of `/` and
/// `?`, and every artifact ID is nonempty and free of `,` and `&`.
pub proof fn lemma_evidence_resource_uri_round_trip(
    experiment_id: Seq<char>,
    digest: Seq<char>,
    oracles: bool,
    ids: Seq<Seq<char>>,
)
    requires
        experiment_id.len() > 0,
        lacks(experiment_id, '/'),
        lacks(experiment_id, '?'),
        digest.len() > 0,
        lacks(digest, '/'),
        lacks(digest, '?'),
        forall|i: int|
            0 <= i < ids.len() ==> (#[trigger] ids[i]).len() > 0 && lacks(ids[i], ',') && lacks(
                ids[i],
                '&',
            ),
    ensures
        parse_uri_spec(evidence_uri_spec(experiment_id, digest, oracles, sort_strings(ids))) == Some(
            (experiment_id, digest, oracles, sort_strings(ids)),
        ),
{
    let sorted = sort_strings(ids);
    lemma_sort_strings_members(ids);
    assert forall|i: int| 0 <= i < sorted.len() implies (#[trigger] sorted[i]).len() > 0 && lacks(sorted[i], ',')
        && lacks(sorted[i], '&') by {
        assert(ids.contains(sorted[i]));
        let k = choose|k: int| 0 <= k < ids.len() && ids[k] == sorted[i];
        assert(ids[k].len() > 0 && lacks(ids[k], ',') && lacks(ids[k], '&'));
    }
    lemma_evidence_uri_round_trip(experiment_id, digest, oracles, sorted);
}

/// Which artifact bodies an evidence bundle embeds: an action's body is
/// embedded exactly when the request names the action, or when oracle
/// artifacts are requested and the action is a conservation or reachability
/// oracle.
pub proof fn lemma_bundle_selection(explicit: Seq<Seq<char>>, include_oracles: bool, action: EvidenceActionRecord)
    ensures
        selected_for_bundle(explicit, include_oracles, action) == (explicit.contains(action.id@) || (include_oracles
            && (action.kind@ == "conservation_oracle"@ || action.kind@ == "reachability_oracle"@))),
        include_oracles && action.kind@ == "conservation_oracle"@ ==> selected_for_bundle(
            explicit,
            include_oracles,
            action,
        ),
        include_oracles && action.kind@ == "reachability_oracle"@ ==> selected_for_bundle(
            explicit,
            include_oracles,
            action,
        ),
        !include_oracles && !explicit.contains(action.id@) ==> !selected_for_bundle(explicit, include_oracles, action),
{
}

} // verus!

//! A compact summary of a cell's topology: sorted IDs, backend binding counts
//! and the warnings that point out likely mistakes in an experiment's shape.
use crate::by_id::{distinct_keys, keys, lemma_sort_by_id_ignores_order, sort_by_id, sort_by_id_exec};
use crate::evidence::saturating_count;
use crate::model::{CellSpec, ComponentKind, ComponentSpec, LinkKind, LinkSpec};
use crate::text::{decimal, push_char, render_u64, str_eq};
use vstd::prelude::*;

verus! {

broadcast use vstd::string::group_string_axioms;

/// The summary of a cell's topology (its digest is computed by the caller).
#[derive(Clone, Debug)]
pub struct TopologySummary {
    pub component_count: u32,
    pub link_count: u32,
    pub component_ids: Vec<String>,
    pub link_ids: Vec<String>,
    pub backend_link_count: u32,
    pub bound_backend_link_count: u32,
    pub warnings: Vec<String>,
}

pub open spec fn count_links(ls: Seq<LinkSpec>, pred: spec_fn(LinkSpec) -> bool) -> nat
    decreases ls.len(),
{
    if ls.len() == 0 {
        0
    } else {
        count_links(ls.drop_last(), pred) + if pred(ls.last()) {
            1nat
        } else {
            0nat
        }
    }
}

pub open spec fn count_kind(cs: Seq<ComponentSpec>, kind: ComponentKind) -> nat
    decreases cs.len(),
{
    if cs.len() == 0 {
        0
    } else {
        count_kind(cs.drop_last(), kind) + if cs.last().kind == kind {
            1nat
        } else {
            0nat
        }
    }
}

/// Backend links among these links.
pub open spec fn backend_links(ls: Seq<LinkSpec>) -> nat {
    count_links(ls, |l: LinkSpec| is_backend_link(l))
}

/// Backend links that carry a typed binding.
pub open spec fn bound_links(ls: Seq<LinkSpec>) -> nat {
    count_links(ls, |l: LinkSpec| is_bound_backend_link(l))
}

pub open spec fn is_backend_link(l: LinkSpec) -> bool {
    l.kind.spec_is_backend()
}

pub open spec fn is_bound_backend_link(l: LinkSpec) -> bool {
    l.kind.spec_is_backend() && l.binding is Some
}

/// Some payment-backend link ends at this component.
pub open spec fn is_payment_backend(ls: Seq<LinkSpec>, id: Seq<char>) -> bool {
    exists|i: int| 0 <= i < ls.len() && ls[i].kind == LinkKind::PaymentBackend && #[trigger] ls[i].to@ == id
}

/// A Lightning node that is no mint's payment backend can forward payments.
pub open spec fn has_intermediary(cs: Seq<ComponentSpec>, ls: Seq<LinkSpec>) -> bool {
    exists|i: int| 0 <= i < cs.len() && cs[i].kind == ComponentKind::Lightning && !is_payment_backend(ls, #[trigger] cs[i].id@)
}

/// Lightning peer links joining two payment backends directly, in link order.
pub open spec fn direct_backend_peers(ls: Seq<LinkSpec>) -> Seq<Seq<char>> {
    direct_peers_with(ls, ls)
}

/// Items joined by a separator character.
pub open spec fn joined(items: Seq<Seq<char>>, sep: char) -> Seq<char>
    decreases items.len(),
{
    if items.len() == 0 {
        Seq::<char>::empty()
    } else if items.len() == 1 {
        items[0]
    } else {
        joined(items.drop_last(), sep) + seq![sep] + items.last()
    }
}

pub open spec fn sat_u32(n: nat) -> u32 {
    if n > u32::MAX {
        u32::MAX
    } else {
        n as u32
    }
}

/// The warning about an empty or disconnected topology.
pub open spec fn warn_shape(cs: Seq<ComponentSpec>, ls: Seq<LinkSpec>) -> Seq<Seq<char>> {
    if cs.len() == 0 {
        seq!["empty_topology: the cell contains no components"@]
    } else if cs.len() > 1 && ls.len() == 0 {
        seq!["disconnected_topology: multiple components have no links"@]
    } else {
        Seq::<Seq<char>>::empty()
    }
}

/// The warning about backend links without typed bindings.
pub open spec fn warn_unbound(ls: Seq<LinkSpec>) -> Seq<Seq<char>> {
    let backend = backend_links(ls);
    let bound = bound_links(ls);
    if backend != bound {
        seq![
            "unbound_backend_links: "@ + decimal(bound) + seq!['/'] + decimal(backend)
                + " carry typed bindings"@,
        ]
    } else {
        Seq::<Seq<char>>::empty()
    }
}

/// The warning about payment backends peered directly beside a forwarding node.
pub open spec fn warn_direct(cs: Seq<ComponentSpec>, ls: Seq<LinkSpec>) -> Seq<Seq<char>> {
    let peers = direct_backend_peers(ls);
    if has_intermediary(cs, ls) && peers.len() > 0 {
        seq![
            "direct_mint_backend_peer: link(s) "@ + joined(
                peers.take(if peers.len() < 16 { peers.len() as int } else { 16 }),
                ',',
            )
                + " bypass the available forwarding node; routing-fee experiments need backend <-> router <-> backend with no direct backend peer"@,
        ]
    } else {
        Seq::<Seq<char>>::empty()
    }
}

/// The warning about several mints without distinct payer and recipient wallets.
pub open spec fn warn_wallets(cs: Seq<ComponentSpec>) -> Seq<Seq<char>> {
    let mints = count_kind(cs, ComponentKind::Mint);
    let wallets = count_kind(cs, ComponentKind::Wallet);
    if mints >= 2 && wallets < 2 {
        seq![
            "distinct_payment_wallets_required: "@ + decimal(mints) + " mints but only "@ + decimal(
                wallets,
            )
                + " wallet component(s); bidirectional cross-mint payments require distinct payer and recipient wallet components"@,
        ]
    } else {
        Seq::<Seq<char>>::empty()
    }
}

/// The warnings, in order, of a topology with these sorted components and links.
pub open spec fn topology_warnings(cs: Seq<ComponentSpec>, ls: Seq<LinkSpec>) -> Seq<Seq<char>> {
    warn_shape(cs, ls) + warn_unbound(ls) + warn_direct(cs, ls) + warn_wallets(cs)
}

fn count_backend(ls: &Vec<LinkSpec>) -> (r: (usize, usize))
    ensures
        r.0 == backend_links(ls@),
        r.1 == bound_links(ls@),
{
    let mut backend: usize = 0;
    let mut bound: usize = 0;
    let mut i: usize = 0;
    while i < ls.len()
        invariant
            i <= ls@.len(),
            backend <= i,
            bound <= i,
            backend == backend_links(ls@.take(i as int)),
            bound == bound_links(ls@.take(i as int)),
        decreases ls@.len() - i,
    {
        assert(ls@.take(i + 1).drop_last() =~= ls@.take(i as int));
        assert(ls@.take(i + 1).last() == ls@[i as int]);
        if ls[i].kind.is_backend() {
            backend = backend + 1;
            if ls[i].binding.is_some() {
                bound = bound + 1;
            }
        }
        i = i + 1;
    }
    assert(ls@.take(ls@.len() as int) =~= ls@);
    (backend, bound)
}

fn count_components(cs: &Vec<ComponentSpec>, kind: ComponentKind) -> (r: usize)
    ensures
        r == count_kind(cs@, kind),
{
    let mut n: usize = 0;
    let mut i: usize = 0;
    while i < cs.len()
        invariant
            i <= cs@.len(),
            n <= i,
            n == count_kind(cs@.take(i as int), kind),
        decreases cs@.len() - i,
    {
        assert(cs@.take(i + 1).drop_last() =~= cs@.take(i as int));
        assert(cs@.take(i + 1).last() == cs@[i as int]);
        if cs[i].kind == kind {
            n = n + 1;
        }
        i = i + 1;
    }
    assert(cs@.take(cs@.len() as int) =~= cs@);
    n
}

fn payment_backend(ls: &Vec<LinkSpec>, id: &str) -> (r: bool)
    ensures
        r == is_payment_backend(ls@, id@),
{
    let mut i: usize = 0;
    while i < ls.len()
        invariant
            i <= ls@.len(),
            forall|k: int| 0 <= k < i ==> !(ls@[k].kind == LinkKind::PaymentBackend && #[trigger] ls@[k].to@ == id@),
        decreases ls@.len() - i,
    {
        if ls[i].kind == LinkKind::PaymentBackend && str_eq(ls[i].to.as_str(), id) {
            return true;
        }
        i = i + 1;
    }
    false
}

fn intermediary(cs: &Vec<ComponentSpec>, ls: &Vec<LinkSpec>) -> (r: bool)
    ensures
        r == has_intermediary(cs@, ls@),
{
    let mut i: usize = 0;
    while i < cs.len()
        invariant
            i <= cs@.len(),
            forall|k: int| 0 <= k < i ==> !(cs@[k].kind == ComponentKind::Lightning && !is_payment_backend(ls@, #[trigger] cs@[k].id@)),
        decreases cs@.len() - i,
    {
        if cs[i].kind == ComponentKind::Lightning && !payment_backend(ls, cs[i].id.as_str()) {
            return true;
        }
        i = i + 1;
    }
    false
}

pub open spec fn direct_peers_upto(ls: Seq<LinkSpec>, all: Seq<LinkSpec>, upto: int) -> Seq<Seq<char>>
    decreases upto,
{
    if upto <= 0 {
        Seq::<Seq<char>>::empty()
    } else {
        let l = ls[upto - 1];
        let rest = direct_peers_upto(ls, all, upto - 1);
        if l.kind == LinkKind::LightningPeer && is_payment_backend(all, l.from@) && is_payment_backend(all, l.to@) {
            rest.push(l.id@)
        } else {
            rest
        }
    }
}

fn direct_peers(ls: &Vec<LinkSpec>) -> (r: Vec<String>)
    ensures
        r@.map_values(|s: String| s@) == direct_peers_upto(ls@, ls@, ls@.len() as int),
{
    let mut r: Vec<String> = Vec::new();
    let mut i: usize = 0;
    while i < ls.len()
        invariant
            i <= ls@.len(),
            r@.map_values(|s: String| s@) == direct_peers_upto(ls@, ls@, i as int),
        decreases ls@.len() - i,
    {
        let l = &ls[i];
        let ghost before = r@.map_values(|s: String| s@);
        if l.kind == LinkKind::LightningPeer && payment_backend(ls, l.from.as_str()) && payment_backend(ls, l.to.as_str()) {
            r.push(l.id.clone());
            assert(r@.map_values(|s: String| s@) =~= before.push(l.id@));
        }
        i = i + 1;
    }
    r
}

fn join_first(items: &Vec<String>, max: usize, sep: char) -> (r: String)
    ensures
        r@ == joined(
            items@.map_values(|s: String| s@).take(if items@.len() < max { items@.len() as int } else { max as int }),
            sep,
        ),
{
    let n: usize = if items.len() < max { items.len() } else { max };
    let ghost all = items@.map_values(|s: String| s@);
    let mut r = String::new();
    let mut i: usize = 0;
    while i < n
        invariant
            i <= n <= items@.len(),
            n == (if items@.len() < max { items@.len() } else { max as nat }),
            all == items@.map_values(|s: String| s@),
            r@ == joined(all.take(i as int), sep),
        decreases n - i,
    {
        assert(all.take(i + 1).drop_last() =~= all.take(i as int));
        assert(all.take(i + 1).last() == items@[i as int]@);
        if i > 0 {
            push_char(&mut r, sep);
        }
        r.append(items[i].as_str());
        i = i + 1;
    }
    r
}

proof fn lemma_direct_peers_full(ls: Seq<LinkSpec>)
    ensures
        direct_peers_upto(ls, ls, ls.len() as int) == direct_backend_peers(ls),
{
    lemma_direct_peers_prefix(ls, ls.len() as int);
    assert(ls.take(ls.len() as int) =~= ls);
}

proof fn lemma_direct_peers_prefix(ls: Seq<LinkSpec>, upto: int)
    requires
        0 <= upto <= ls.len(),
    ensures
        direct_peers_upto(ls, ls, upto) == direct_peers_with(ls.take(upto), ls),
    decreases upto,
{
    if upto > 0 {
        lemma_direct_peers_prefix(ls, upto - 1);
        assert(ls.take(upto).drop_last() =~= ls.take(upto - 1));
        assert(ls.take(upto).last() == ls[upto - 1]);
    } else {
        assert(ls.take(0).len() == 0);
    }
}

/// Direct backend peers among `ls`, judging payment backends by `all`.
pub open spec fn direct_peers_with(ls: Seq<LinkSpec>, all: Seq<LinkSpec>) -> Seq<Seq<char>>
    decreases ls.len(),
{
    if ls.len() == 0 {
        Seq::<Seq<char>>::empty()
    } else {
        let l = ls.last();
        let rest = direct_peers_with(ls.drop_last(), all);
        if l.kind == LinkKind::LightningPeer && is_payment_backend(all, l.from@) && is_payment_backend(all, l.to@) {
            rest.push(l.id@)
        } else {
            rest
        }
    }
}

fn ids_of<T: crate::by_id::Identified>(items: &Vec<T>) -> (r: Vec<String>)
    ensures
        r@.map_values(|s: String| s@) == keys(items@),
{
    let mut r: Vec<String> = Vec::new();
    let mut i: usize = 0;
    while i < items.len()
        invariant
            i <= items@.len(),
            r@.map_values(|s: String| s@) == keys(items@.take(i as int)),
        decreases items@.len() - i,
    {
        r.push(items[i].id_str().to_owned());
        assert(keys(items@.take(i + 1)) =~= keys(items@.take(i as int)).push(items@[i as int].key()));
        assert(r@.map_values(|s: String| s@) =~= keys(items@.take(i + 1)));
        i = i + 1;
    }
    assert(items@.take(items@.len() as int) =~= items@);
    r
}

/// Summarizes a cell: components and links sorted by ID, their IDs, backend
/// binding counts (saturating at `u32::MAX`) and the topology warnings.
pub fn topology_summary(cell: &CellSpec) -> (r: TopologySummary)
    ensures
        ({
            let cs = sort_by_id(cell.components@);
            let ls = sort_by_id(cell.links@);
            &&& r.component_count == sat_u32(cs.len())
            &&& r.link_count == sat_u32(ls.len())
            &&& r.component_ids@.map_values(|s: String| s@) == keys(cs)
            &&& r.link_ids@.map_values(|s: String| s@) == keys(ls)
            &&& r.backend_link_count == sat_u32(backend_links(ls))
            &&& r.bound_backend_link_count == sat_u32(bound_links(ls))
            &&& r.warnings@.map_values(|s: String| s@) == topology_warnings(cs, ls)
        }),
{
    let component_copy = cell.components.clone();
    let link_copy = cell.links.clone();
    assert(component_copy@ =~= cell.components@);
    assert(link_copy@ =~= cell.links@);
    let components = sort_by_id_exec(component_copy);
    let links = sort_by_id_exec(link_copy);
    let component_ids = ids_of(&components);
    let link_ids = ids_of(&links);
    let (backend, bound) = count_backend(&links);
    let ghost cs = components@;
    let ghost ls = links@;
    let mut warnings: Vec<String> = Vec::new();
    if components.len() == 0 {
        warnings.push("empty_topology: the cell contains no components".to_owned());
    } else if components.len() > 1 && links.len() == 0 {
        warnings.push("disconnected_topology: multiple components have no links".to_owned());
    }
    assert(warnings@.map_values(|s: String| s@) =~= warn_shape(cs, ls));
    if backend != bound {
        let mut w = "unbound_backend_links: ".to_owned();
        let b = render_u64(bound as u64);
        w.append(b.as_str());
        push_char(&mut w, '/');
        let t = render_u64(backend as u64);
        w.append(t.as_str());
        w.append(" carry typed bindings");
        assert(w@ =~= "unbound_backend_links: "@ + decimal(bound as nat) + seq!['/'] + decimal(backend as nat)
            + " carry typed bindings"@);
        warnings.push(w);
    }
    assert(warnings@.map_values(|s: String| s@) =~= warn_shape(cs, ls) + warn_unbound(ls));
    let peers = direct_peers(&links);
    proof {
        lemma_direct_peers_full(ls);
    }
    if peers.len() > 0 && intermediary(&components, &links) {
        let mut w = "direct_mint_backend_peer: link(s) ".to_owned();
        let listed = join_first(&peers, 16, ',');
        w.append(listed.as_str());
        w.append(
            " bypass the available forwarding node; routing-fee experiments need backend <-> router <-> backend with no direct backend peer",
        );
        assert(w@ =~= "direct_mint_backend_peer: link(s) "@ + listed@
            + " bypass the available forwarding node; routing-fee experiments need backend <-> router <-> backend with no direct backend peer"@);
        warnings.push(w);
    }
    assert(warnings@.map_values(|s: String| s@) =~= warn_shape(cs, ls) + warn_unbound(ls) + warn_direct(cs, ls));
    let mints = count_components(&components, ComponentKind::Mint);
    let wallets = count_components(&components, ComponentKind::Wallet);
    if mints >= 2 && wallets < 2 {
        let mut w = "distinct_payment_wallets_required: ".to_owned();
        let m = render_u64(mints as u64);
        w.append(m.as_str());
        w.append(" mints but only ");
        let k = render_u64(wallets as u64);
        w.append(k.as_str());
        w.append(
            " wallet component(s); bidirectional cross-mint payments require distinct payer and recipient wallet components",
        );
        assert(w@ =~= "distinct_payment_wallets_required: "@ + decimal(mints as nat) + " mints but only "@
            + decimal(wallets as nat)
            + " wallet component(s); bidirectional cross-mint payments require distinct payer and recipient wallet components"@);
        warnings.push(w);
    }
    assert(warnings@.map_values(|s: String| s@) =~= topology_warnings(cs, ls));
    TopologySummary {
        component_count: saturating_count(components.len()),
        link_count: saturating_count(links.len()),
        component_ids,
        link_ids,
        backend_link_count: saturating_count(backend),
        bound_backend_link_count: saturating_count(bound),
        warnings,
    }
}

/// The topology summary does not depend on the order in which a cell lists its
/// components and links: two cells holding the same components and the same
/// links, each with distinct IDs, have summaries built from the same sorted
/// components and links, so every field and warning agrees.
pub proof fn lemma_topology_summary_ignores_order(first: CellSpec, second: CellSpec)
    requires
        first.components@.to_multiset() == second.components@.to_multiset(),
        first.links@.to_multiset() == second.links@.to_multiset(),
        distinct_keys(first.components@),
        distinct_keys(first.links@),
    ensures
        sort_by_id(first.components@) == sort_by_id(second.components@),
        sort_by_id(first.links@) == sort_by_id(second.links@),
        topology_warnings(sort_by_id(first.components@), sort_by_id(first.links@)) == topology_warnings(
            sort_by_id(second.components@),
            sort_by_id(second.links@),
        ),
{
    lemma_sort_by_id_ignores_order(first.components@, second.components@);
    lemma_sort_by_id_ignores_order(first.links@, second.links@);
}

} // verus!

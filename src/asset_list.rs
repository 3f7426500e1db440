//! Canonical lists of assets: sorted, with the fungible holdings of one class
//! merged into a single entry and duplicate non-fungible instances dropped.
use vstd::prelude::*;
use vstd::relations::{sorted_by, total_ordering};
use vstd::seq_lib::{group_to_multiset_ensures, lemma_sorted_unique};

use crate::asset::{
    asset_contains, asset_key, asset_le, asset_lt, id_lt, id_prepended, id_reanchored,
    instance_eq, kind_rank, lemma_asset_key_separated, lemma_asset_lt_by_id,
    lemma_asset_lt_by_kind, AssetIdModel, AssetModel, Fungibility, MultiAsset,
};
use crate::location::{Junction, LocationModel, MultiLocation};
use crate::order::{
    ints, lemma_lex_asymmetric, lemma_lex_irreflexive, lemma_lex_total, lemma_lex_transitive,
    lemma_separated_differ, lex_less,
};

verus! {

broadcast use group_to_multiset_ensures;

/// The most entries that a list decoded from outside bytes may hold.
pub const MAX_ITEMS_IN_MULTIASSETS: usize = 20;

/// A list of assets; see `From<Vec<MultiAsset>>` for the canonical form.
#[derive(Debug, PartialEq, Eq)]
pub struct MultiAssets(Vec<MultiAsset>);

/// Why a list of assets read from outside was refused.
#[derive(Clone, Copy, Debug, PartialEq, Eq)]
pub enum DecodeError {
    /// More entries than `MAX_ITEMS_IN_MULTIASSETS`.
    TooManyItems,
    /// A fungible entry of amount zero.
    ZeroAmount,
    /// Entries not in strictly increasing order, or duplicated.
    OutOfOrder,
}

pub open spec fn models(v: Seq<MultiAsset>) -> Seq<AssetModel> {
    v.map_values(|a: MultiAsset| a@)
}

impl View for MultiAssets {
    type V = Seq<AssetModel>;

    closed spec fn view(&self) -> Seq<AssetModel> {
        models(self.0@)
    }
}

// ---------------------------------------------------------------------------
// The canonical form
// ---------------------------------------------------------------------------

/// The canonical order as a relation.
pub open spec fn asset_order() -> spec_fn(AssetModel, AssetModel) -> bool {
    |a: AssetModel, b: AssetModel| asset_le(a, b)
}

/// `s` in the canonical order.
pub open spec fn sorted_assets(s: Seq<AssetModel>) -> Seq<AssetModel> {
    s.sort_by(asset_order())
}

/// `b` merges into `a`, its neighbour in a sorted list: the same class, and
/// either both fungible or the very same non-fungible instance.
pub open spec fn absorbs(a: AssetModel, b: AssetModel) -> bool {
    a.id == b.id && match (a.fun, b.fun) {
        (Fungibility::Fungible(_), Fungibility::Fungible(_)) => true,
        (Fungibility::NonFungible(x), Fungibility::NonFungible(y)) => x == y,
        _ => false,
    }
}

/// `x + y`, clamped at `u128::MAX`.
pub open spec fn saturating_sum(x: u128, y: u128) -> u128 {
    if x + y > u128::MAX {
        u128::MAX
    } else {
        (x + y) as u128
    }
}

/// `a` after `b` has merged into it: fungible amounts add up, saturating.
pub open spec fn absorbed(a: AssetModel, b: AssetModel) -> AssetModel {
    match (a.fun, b.fun) {
        (Fungibility::Fungible(x), Fungibility::Fungible(y)) => AssetModel {
            id: a.id,
            fun: Fungibility::Fungible(saturating_sum(x, y)),
        },
        _ => a,
    }
}

/// One pass over `s` from the left that merges each entry into the one
/// before it where it can.
pub open spec fn merge_adjacent(s: Seq<AssetModel>) -> Seq<AssetModel>
    decreases s.len(),
{
    if s.len() == 0 {
        s
    } else {
        let m = merge_adjacent(s.drop_last());
        let b = s.last();
        if m.len() > 0 && absorbs(m.last(), b) {
            m.drop_last().push(absorbed(m.last(), b))
        } else {
            m.push(b)
        }
    }
}

/// The canonical form of a collection of assets.
pub open spec fn canonical_form(s: Seq<AssetModel>) -> Seq<AssetModel> {
    merge_adjacent(sorted_assets(s))
}

/// Strictly increasing in the canonical order, with no two neighbouring
/// fungible entries of one class.
pub open spec fn is_normalized(s: Seq<AssetModel>) -> bool {
    forall|i: int|
        0 < i < s.len() ==> asset_lt(s[i - 1], #[trigger] s[i]) && !(s[i - 1].fun is Fungible
            && s[i].fun is Fungible && s[i - 1].id == s[i].id)
}

/// Strictly increasing in the canonical order.
pub open spec fn strictly_sorted(s: Seq<AssetModel>) -> bool {
    forall|i: int, j: int| 0 <= i < j < s.len() ==> #[trigger] asset_lt(s[i], s[j])
}

/// The order that a list read from outside must keep between neighbours:
/// the class increases, or the class is the same, the entries increase and
/// at least one of them is non-fungible.
pub open spec fn ordered_pair(a: AssetModel, b: AssetModel) -> bool {
    id_lt(a.id, b.id) || (a.id == b.id && asset_lt(a, b) && (a.fun is NonFungible
        || b.fun is NonFungible))
}

/// Every pair of neighbours keeps `ordered_pair`.
pub open spec fn is_strictly_ordered(s: Seq<AssetModel>) -> bool {
    forall|i: int| 0 < i < s.len() ==> #[trigger] ordered_pair(s[i - 1], s[i])
}

/// No fungible entry of `s` has a class above that of a non-fungible entry.
pub open spec fn fungible_classes_first(s: Seq<AssetModel>) -> bool {
    forall|i: int, j: int|
        0 <= i < s.len() && 0 <= j < s.len() && s[i].fun is Fungible && s[j].fun is NonFungible
            ==> !#[trigger] id_lt(s[j].id, s[i].id)
}

/// Some entry of `s` holds at least what `inner` describes.
pub open spec fn list_contains(s: Seq<AssetModel>, inner: AssetModel) -> bool {
    exists|i: int| 0 <= i < s.len() && asset_contains(#[trigger] s[i], inner)
}

/// The index of the first entry of `s` that `a` merges into, if any.
pub open spec fn first_absorbing(s: Seq<AssetModel>, a: AssetModel) -> Option<int> {
    if exists|i: int|
        0 <= i < s.len() && absorbs(s[i], a) && forall|k: int|
            0 <= k < i ==> !absorbs(#[trigger] s[k], a) {
        Some(
            choose|i: int|
                0 <= i < s.len() && absorbs(s[i], a) && forall|k: int|
                    0 <= k < i ==> !absorbs(#[trigger] s[k], a),
        )
    } else {
        None
    }
}

/// `s` after `a` is added to it.
pub open spec fn pushed(s: Seq<AssetModel>, a: AssetModel) -> Seq<AssetModel> {
    match first_absorbing(s, a) {
        Some(i) => s.update(i, absorbed(s[i], a)),
        None => sorted_assets(s.push(a)),
    }
}

/// Each entry of `s` with its class transformed by `f`; `None` if `f` fails
/// on any of them.
pub open spec fn map_ids(
    s: Seq<AssetModel>,
    f: spec_fn(AssetIdModel) -> Option<AssetIdModel>,
) -> Option<Seq<AssetModel>> {
    if forall|i: int| 0 <= i < s.len() ==> (#[trigger] f(s[i].id)) is Some {
        Some(Seq::new(s.len(), |i: int| AssetModel { id: f(s[i].id)->Some_0, fun: s[i].fun }))
    } else {
        None
    }
}

pub open spec fn prepend_fn(prefix: LocationModel) -> spec_fn(AssetIdModel) -> Option<AssetIdModel> {
    |id: AssetIdModel| id_prepended(id, prefix)
}

pub open spec fn reanchor_fn(target: LocationModel, context: Seq<Junction>) -> spec_fn(
    AssetIdModel,
) -> Option<AssetIdModel> {
    |id: AssetIdModel| id_reanchored(id, target, context)
}

// ---------------------------------------------------------------------------
// Facts about the order and the canonical form
// ---------------------------------------------------------------------------

/// The canonical order is a total order.
pub proof fn lemma_asset_order_total()
    ensures
        total_ordering(asset_order()),
{
    let r = asset_order();
    assert forall|x: AssetModel, y: AssetModel| #[trigger] r(x, y) && #[trigger] r(y, x) implies x
        == y by {
        if x != y {
            lemma_lex_asymmetric(asset_key(x), asset_key(y));
        }
    }
    assert forall|x: AssetModel, y: AssetModel, z: AssetModel|
        #[trigger] r(x, y) && #[trigger] r(y, z) implies r(x, z) by {
        if x != y && y != z {
            lemma_lex_transitive(asset_key(x), asset_key(y), asset_key(z));
        }
    }
    assert forall|x: AssetModel, y: AssetModel| #[trigger] r(x, y) || #[trigger] r(y, x) by {
        if x != y {
            lemma_asset_key_separated(x, y);
            lemma_separated_differ(asset_key(x), asset_key(y));
            lemma_lex_total(asset_key(x), asset_key(y));
        }
    }
}

proof fn lemma_normalized_chain(s: Seq<AssetModel>, i: int, j: int)
    requires
        is_normalized(s),
        0 <= i < j < s.len(),
    ensures
        asset_lt(s[i], s[j]),
    decreases j - i,
{
    assert(asset_lt(s[j - 1], s[j]));
    if i < j - 1 {
        lemma_normalized_chain(s, i, j - 1);
        lemma_lex_transitive(asset_key(s[i]), asset_key(s[j - 1]), asset_key(s[j]));
    }
}

/// A normalized list is strictly increasing, and so sorted.
pub proof fn lemma_normalized_strictly_sorted(s: Seq<AssetModel>)
    requires
        is_normalized(s),
    ensures
        strictly_sorted(s),
        sorted_by(s, asset_order()),
{
    assert forall|i: int, j: int| 0 <= i < j < s.len() implies #[trigger] asset_lt(s[i], s[j]) by {
        lemma_normalized_chain(s, i, j);
    }
}

proof fn lemma_sorted_drop_last(p: Seq<AssetModel>)
    requires
        sorted_by(p, asset_order()),
        p.len() > 0,
    ensures
        sorted_by(p.drop_last(), asset_order()),
{
    let q = p.drop_last();
    assert forall|i: int, j: int| 0 <= i < j < q.len() implies #[trigger] asset_order()(
        q[i],
        q[j],
    ) by {
        assert(asset_order()(p[i], p[j]));
    }
}

/// Merging the neighbours of a sorted list normalizes it; its last entry keeps
/// the class and kind of the input's last entry, and every entry's class and
/// kind occurs in the input.
proof fn lemma_merge_normalizes(p: Seq<AssetModel>)
    requires
        sorted_by(p, asset_order()),
    ensures
        is_normalized(merge_adjacent(p)),
        p.len() > 0 ==> merge_adjacent(p).len() > 0,
        p.len() > 0 ==> merge_adjacent(p).last().id == p.last().id,
        p.len() > 0 ==> kind_rank(merge_adjacent(p).last().fun) == kind_rank(p.last().fun),
        p.len() > 0 && merge_adjacent(p).last().fun is NonFungible ==> merge_adjacent(p).last()
            == p.last(),
        forall|k: int|
            0 <= k < merge_adjacent(p).len() ==> exists|j: int|
                0 <= j < p.len() && p[j].id == (#[trigger] merge_adjacent(p)[k]).id && kind_rank(
                    p[j].fun,
                ) == kind_rank(merge_adjacent(p)[k].fun),
    decreases p.len(),
{
    if p.len() > 0 {
        let q = p.drop_last();
        lemma_sorted_drop_last(p);
        lemma_merge_normalizes(q);
        let m = merge_adjacent(q);
        let b = p.last();
        let r = merge_adjacent(p);
        assert forall|k: int| 0 <= k < m.len() implies exists|j: int|
            0 <= j < p.len() && p[j].id == (#[trigger] m[k]).id && kind_rank(p[j].fun) == kind_rank(
                m[k].fun,
            ) by {
            let j = choose|j: int|
                0 <= j < q.len() && q[j].id == m[k].id && kind_rank(q[j].fun) == kind_rank(
                    m[k].fun,
                );
            assert(p[j] == q[j]);
        }
        if m.len() > 0 && absorbs(m.last(), b) {
            let a = m.last();
            let n = absorbed(a, b);
            assert(r == m.drop_last().push(n));
            assert forall|i: int| 0 < i < r.len() implies asset_lt(r[i - 1], #[trigger] r[i]) && !(
            r[i - 1].fun is Fungible && r[i].fun is Fungible && r[i - 1].id == r[i].id) by {
                if i == r.len() - 1 && n != a {
                    let c = m[i - 1];
                    assert(asset_lt(c, m[i]));
                    assert(m[i] == a);
                    if c.fun is NonFungible {
                        lemma_asset_lt_by_kind(c, a);
                    }
                    lemma_asset_lt_by_id(c, a);
                    lemma_asset_lt_by_id(c, n);
                } else {
                    assert(r[i] == m[i] && r[i - 1] == m[i - 1]);
                }
            }
            assert forall|k: int| 0 <= k < r.len() implies exists|j: int|
                0 <= j < p.len() && p[j].id == (#[trigger] r[k]).id && kind_rank(p[j].fun)
                    == kind_rank(r[k].fun) by {
                assert(m[k].id == r[k].id && kind_rank(m[k].fun) == kind_rank(r[k].fun));
                assert(exists|j: int|
                    0 <= j < p.len() && p[j].id == (#[trigger] m[k]).id && kind_rank(p[j].fun)
                        == kind_rank(m[k].fun));
            }
        } else {
            assert(r == m.push(b));
            if m.len() > 0 {
                let a = m.last();
                let pl = q.last();
                assert(asset_order()(p[p.len() - 2], p[p.len() - 1]));
                assert(asset_le(pl, b));
                assert(asset_lt(a, b) && !(a.fun is Fungible && b.fun is Fungible && a.id
                    == b.id)) by {
                    if a.fun is Fungible && b.fun is Fungible {
                        lemma_asset_lt_by_id(pl, b);
                        lemma_asset_lt_by_id(a, b);
                    } else if a.fun is Fungible {
                        lemma_asset_lt_by_kind(a, b);
                    } else if b.fun is Fungible {
                        lemma_asset_lt_by_kind(pl, b);
                    } else {
                        assert(a == pl);
                    }
                }
                assert forall|i: int| 0 < i < r.len() implies asset_lt(
                    r[i - 1],
                    #[trigger] r[i],
                ) && !(r[i - 1].fun is Fungible && r[i].fun is Fungible && r[i - 1].id
                    == r[i].id) by {
                    if i < r.len() - 1 {
                        assert(r[i] == m[i] && r[i - 1] == m[i - 1]);
                    }
                }
            } else {
                assert(r.len() == 1);
            }
            assert forall|k: int| 0 <= k < r.len() implies exists|j: int|
                0 <= j < p.len() && p[j].id == (#[trigger] r[k]).id && kind_rank(p[j].fun)
                    == kind_rank(r[k].fun) by {
                if k == r.len() - 1 {
                    assert(p[p.len() - 1] == r[k]);
                } else {
                    assert(m[k] == r[k]);
                    assert(exists|j: int|
                        0 <= j < p.len() && p[j].id == (#[trigger] m[k]).id && kind_rank(p[j].fun)
                            == kind_rank(m[k].fun));
                }
            }
        }
    }
}

/// Merging changes nothing in a normalized list.
proof fn lemma_merge_normalized_identity(c: Seq<AssetModel>)
    requires
        is_normalized(c),
    ensures
        merge_adjacent(c) == c,
    decreases c.len(),
{
    if c.len() > 0 {
        let q = c.drop_last();
        assert(is_normalized(q)) by {
            assert forall|i: int| 0 < i < q.len() implies asset_lt(q[i - 1], #[trigger] q[i]) && !(
            q[i - 1].fun is Fungible && q[i].fun is Fungible && q[i - 1].id == q[i].id) by {
                assert(q[i] == c[i] && q[i - 1] == c[i - 1]);
                assert(asset_lt(c[i - 1], c[i]));
            }
        }
        lemma_merge_normalized_identity(q);
        if q.len() > 0 {
            let a = q.last();
            let b = c.last();
            assert(asset_lt(c[c.len() - 2], c[c.len() - 1]));
            if absorbs(a, b) && a.fun is NonFungible {
                assert(a == b);
                lemma_lex_irreflexive(asset_key(a));
            }
        }
        assert(c =~= q.push(c.last()));
    }
}

/// The canonical form is normalized, and its classes and kinds occur in the input.
proof fn lemma_canonical_form_facts(s: Seq<AssetModel>)
    ensures
        is_normalized(canonical_form(s)),
        forall|k: int|
            0 <= k < canonical_form(s).len() ==> exists|j: int|
                0 <= j < s.len() && s[j].id == (#[trigger] canonical_form(s)[k]).id && kind_rank(
                    s[j].fun,
                ) == kind_rank(canonical_form(s)[k].fun),
{
    lemma_asset_order_total();
    s.lemma_sort_by_ensures(asset_order());
    let p = sorted_assets(s);
    lemma_merge_normalizes(p);
    let c = canonical_form(s);
    assert forall|k: int| 0 <= k < c.len() implies exists|j: int|
        0 <= j < s.len() && s[j].id == (#[trigger] c[k]).id && kind_rank(s[j].fun) == kind_rank(
            c[k].fun,
        ) by {
        let j = choose|j: int|
            0 <= j < p.len() && p[j].id == c[k].id && kind_rank(p[j].fun) == kind_rank(c[k].fun);
        assert(p.contains(p[j]));
        assert(s.contains(p[j]));
    }
}

/// For every collection of assets, the canonical form is strictly increasing
/// in the canonical order, and no two neighbouring entries are fungible
/// holdings of one class.
pub proof fn lemma_canonical_form_is_sorted(s: Seq<AssetModel>)
    ensures
        strictly_sorted(canonical_form(s)),
        forall|i: int|
            0 < i < canonical_form(s).len() ==> !(canonical_form(s)[i - 1].fun is Fungible
                && (#[trigger] canonical_form(s)[i]).fun is Fungible && canonical_form(s)[i - 1].id
                == canonical_form(s)[i].id),
{
    lemma_canonical_form_facts(s);
    lemma_normalized_strictly_sorted(canonical_form(s));
}

/// Taking the canonical form of a canonical form changes nothing.
pub proof fn lemma_canonical_form_idempotent(s: Seq<AssetModel>)
    ensures
        canonical_form(canonical_form(s)) == canonical_form(s),
{
    let c = canonical_form(s);
    lemma_canonical_form_facts(s);
    lemma_normalized_strictly_sorted(c);
    lemma_asset_order_total();
    c.lemma_sort_by_ensures(asset_order());
    lemma_sorted_unique(sorted_assets(c), c, asset_order());
    assert(sorted_assets(c) == c);
    lemma_merge_normalized_identity(c);
}

/// The canonical form of a collection whose fungible classes all sort no
/// higher than its non-fungible classes passes the strict order check.
pub proof fn lemma_canonical_form_strictly_ordered(s: Seq<AssetModel>)
    requires
        fungible_classes_first(s),
    ensures
        is_strictly_ordered(canonical_form(s)),
{
    let c = canonical_form(s);
    lemma_canonical_form_facts(s);
    assert forall|i: int| 0 < i < c.len() implies #[trigger] ordered_pair(c[i - 1], c[i]) by {
        let a = c[i - 1];
        let b = c[i];
        assert(asset_lt(a, b));
        if a.id != b.id {
            if kind_rank(a.fun) == kind_rank(b.fun) {
                lemma_asset_lt_by_id(a, b);
            } else if a.fun is Fungible {
                let ja = choose|j: int|
                    0 <= j < s.len() && s[j].id == (#[trigger] c[i - 1]).id && kind_rank(s[j].fun)
                        == kind_rank(c[i - 1].fun);
                let jb = choose|j: int|
                    0 <= j < s.len() && s[j].id == (#[trigger] c[i]).id && kind_rank(s[j].fun)
                        == kind_rank(c[i].fun);
                assert(!id_lt(s[jb].id, s[ja].id));
                lemma_id_order_total(a.id, b.id);
            } else {
                lemma_asset_lt_by_kind(a, b);
            }
        }
    }
}

/// Re-expressing every class of a list as another location sees it and
/// sorting again, as `MultiAssets::reanchor` does, leaves the list in the
/// canonical order, however the classes' relative order changed; strictly
/// increasing unless two entries became equal.
pub proof fn lemma_reanchor_keeps_order(
    s: Seq<AssetModel>,
    target: LocationModel,
    context: Seq<Junction>,
)
    requires
        map_ids(s, reanchor_fn(target, context)) is Some,
    ensures
        sorted_by(sorted_assets(map_ids(s, reanchor_fn(target, context))->Some_0), asset_order()),
        map_ids(s, reanchor_fn(target, context))->Some_0.no_duplicates() ==> strictly_sorted(
            sorted_assets(map_ids(s, reanchor_fn(target, context))->Some_0),
        ),
{
    let t = map_ids(s, reanchor_fn(target, context))->Some_0;
    let u = sorted_assets(t);
    lemma_asset_order_total();
    t.lemma_sort_by_ensures(asset_order());
    if t.no_duplicates() {
        t.lemma_multiset_has_no_duplicates();
        u.lemma_multiset_has_no_duplicates_conv();
        assert forall|i: int, j: int| 0 <= i < j < u.len() implies #[trigger] asset_lt(u[i], u[j]) by {
            assert(asset_order()(u[i], u[j]));
        }
    }
}

proof fn lemma_id_order_total(a: AssetIdModel, b: AssetIdModel)
    requires
        a != b,
    ensures
        id_lt(a, b) || id_lt(b, a),
{
    crate::asset::lemma_id_key_separated(a, b);
    lemma_separated_differ(crate::asset::id_key(a), crate::asset::id_key(b));
    lemma_lex_total(crate::asset::id_key(a), crate::asset::id_key(b));
}

// ---------------------------------------------------------------------------
// Executable building blocks
// ---------------------------------------------------------------------------

/// `x + y`, clamped at `u128::MAX`: amounts never wrap.
pub fn saturating_add(x: u128, y: u128) -> (r: u128)
    ensures
        r == saturating_sum(x, y),
{
    x.saturating_add(y)
}

fn absorbs_exec(a: &MultiAsset, b: &MultiAsset) -> (r: bool)
    ensures
        r == absorbs(a@, b@),
{
    a.id.same_as(&b.id) && match (&a.fun, &b.fun) {
        (Fungibility::Fungible(_), Fungibility::Fungible(_)) => true,
        (Fungibility::NonFungible(x), Fungibility::NonFungible(y)) => instance_eq(x, y),
        _ => false,
    }
}

fn absorb(a: &MultiAsset, b: &MultiAsset) -> (r: MultiAsset)
    ensures
        r@ == absorbed(a@, b@),
{
    match (&a.fun, &b.fun) {
        (Fungibility::Fungible(x), Fungibility::Fungible(y)) => MultiAsset {
            id: a.id.clone(),
            fun: Fungibility::Fungible(saturating_add(*x, *y)),
        },
        _ => a.clone(),
    }
}

/// A copy of `v` in the canonical order.
fn sort_assets(v: &Vec<MultiAsset>) -> (r: Vec<MultiAsset>)
    ensures
        models(r@) == sorted_assets(models(v@)),
{
    let mut out: Vec<MultiAsset> = Vec::new();
    let mut keys: Vec<Vec<u128>> = Vec::new();
    let mut i: usize = 0;
    proof {
        lemma_asset_order_total();
        assert(models(v@).subrange(0, 0) =~= Seq::<AssetModel>::empty());
        assert(models(out@) =~= Seq::<AssetModel>::empty());
    }
    while i < v.len()
        invariant
            i <= v.len(),
            out.len() == keys.len(),
            total_ordering(asset_order()),
            forall|k: int| 0 <= k < keys.len() ==> ints(#[trigger] keys@[k]@) == asset_key(out@[k]@),
            sorted_by(models(out@), asset_order()),
            models(out@).to_multiset() == models(v@).subrange(0, i as int).to_multiset(),
        decreases v.len() - i,
    {
        let x = v[i].clone();
        let kx = x.key();
        let mut p: usize = out.len();
        while p > 0 && lex_less(&kx, &keys[p - 1])
            invariant
                p <= out.len(),
                out.len() == keys.len(),
                forall|k: int| 0 <= k < keys.len() ==> ints(#[trigger] keys@[k]@) == asset_key(out@[k]@),
                ints(kx@) == asset_key(x@),
                forall|k: int| p <= k < out.len() ==> #[trigger] asset_lt(x@, out@[k]@),
            decreases p,
        {
            p -= 1;
        }
        let ghost old_m = models(out@);
        let ghost old_keys = keys@;
        let ghost old_out = out@;
        proof {
            if p > 0 {
                assert(!asset_lt(x@, old_m[p - 1]));
                assert(asset_order()(old_m[p - 1], x@) || asset_order()(x@, old_m[p - 1]));
            }
        }
        out.insert(p, x);
        keys.insert(p, kx);
        proof {
            let m = models(out@);
            assert(m =~= old_m.insert(p as int, v@[i as int]@));
            assert forall|a: int, b: int| 0 <= a < b < m.len() implies #[trigger] asset_order()(
                m[a],
                m[b],
            ) by {
                if b < p {
                    assert(asset_order()(old_m[a], old_m[b]));
                } else if a > p {
                    assert(asset_order()(old_m[a - 1], old_m[b - 1]));
                } else if a == p {
                    assert(asset_lt(x@, out@[b]@));
                } else if b == p {
                    if a < p - 1 {
                        assert(asset_order()(old_m[a], old_m[p - 1]));
                    }
                } else {
                    assert(asset_order()(old_m[a], old_m[b - 1]));
                }
            }
            assert(models(v@).subrange(0, i + 1) =~= models(v@).subrange(0, i as int).push(
                v@[i as int]@,
            ));
            assert forall|k: int| 0 <= k < keys.len() implies ints(#[trigger] keys@[k]@)
                == asset_key(out@[k]@) by {
                if k > p {
                    assert(keys@[k] == old_keys[k - 1] && out@[k] == old_out[k - 1]);
                } else if k < p {
                    assert(keys@[k] == old_keys[k] && out@[k] == old_out[k]);
                }
            }
        }
        i += 1;
    }
    proof {
        assert(models(v@).subrange(0, i as int) =~= models(v@));
        models(v@).lemma_sort_by_ensures(asset_order());
        lemma_sorted_unique(models(out@), sorted_assets(models(v@)), asset_order());
    }
    out
}

/// `v` with each entry merged into its left neighbour where it can.
fn merge_neighbours(v: &Vec<MultiAsset>) -> (r: Vec<MultiAsset>)
    ensures
        models(r@) == merge_adjacent(models(v@)),
{
    let mut out: Vec<MultiAsset> = Vec::new();
    let mut i: usize = 0;
    proof {
        assert(models(v@).subrange(0, 0) =~= Seq::<AssetModel>::empty());
        assert(models(out@) =~= Seq::<AssetModel>::empty());
    }
    while i < v.len()
        invariant
            i <= v.len(),
            models(out@) == merge_adjacent(models(v@).subrange(0, i as int)),
        decreases v.len() - i,
    {
        let ghost prefix = models(v@).subrange(0, i + 1);
        let ghost before = models(out@);
        let n = out.len();
        if n > 0 && absorbs_exec(&out[n - 1], &v[i]) {
            let merged = absorb(&out[n - 1], &v[i]);
            out.set(n - 1, merged);
            proof {
                assert(models(out@) =~= before.drop_last().push(absorbed(before.last(), v@[i as int]@)));
            }
        } else {
            out.push(v[i].clone());
            proof {
                assert(models(out@) =~= before.push(v@[i as int]@));
            }
        }
        proof {
            assert(prefix.drop_last() =~= models(v@).subrange(0, i as int));
        }
        i += 1;
    }
    proof {
        assert(models(v@).subrange(0, i as int) =~= models(v@));
    }
    out
}

/// Whether neighbours `a`, `b` keep the order that a list read from outside must keep.
fn ordered_pair_exec(a: &MultiAsset, b: &MultiAsset) -> (r: bool)
    ensures
        r == ordered_pair(a@, b@),
{
    let ka = a.id.key();
    let kb = b.id.key();
    if lex_less(&ka, &kb) {
        return true;
    }
    if !a.id.same_as(&b.id) {
        return false;
    }
    let one_non_fungible = match (&a.fun, &b.fun) {
        (Fungibility::Fungible(_), Fungibility::Fungible(_)) => false,
        _ => true,
    };
    one_non_fungible && lex_less(&a.key(), &b.key())
}

// ---------------------------------------------------------------------------
// The list
// ---------------------------------------------------------------------------

impl Clone for MultiAssets {
    fn clone(&self) -> (r: Self)
        ensures
            r@ == self@,
    {
        let r = MultiAssets(self.0.clone());
        proof {
            assert forall|i: int| 0 <= i < self.0.len() implies (#[trigger] r.0@[i])@ == self.0@[i]@ by {
                assert(cloned::<MultiAsset>(self.0@[i], r.0@[i]));
            }
            assert(r@ =~= self@);
        }
        r
    }
}

impl MultiAssets {
    /// An empty list.
    pub fn new() -> (r: Self)
        ensures
            r@ == Seq::<AssetModel>::empty(),
    {
        let r = MultiAssets(Vec::new());
        proof {
            assert(r@ =~= Seq::<AssetModel>::empty());
        }
        r
    }

    /// The canonical form of `assets`: sorted in the canonical order, the
    /// fungible holdings of each class added up into one entry (saturating at
    /// `u128::MAX`), repeated non-fungible instances kept once. Never fails.
    pub fn from_assets(assets: Vec<MultiAsset>) -> (r: Self)
        ensures
            r@ == canonical_form(models(assets@)),
    {
        let sorted = sort_assets(&assets);
        MultiAssets(merge_neighbours(&sorted))
    }

    /// The list `r`, if its neighbours keep the order that a list read from
    /// outside must keep (see `ordered_pair`); nothing is sorted or merged.
    pub fn from_sorted_and_deduplicated(r: Vec<MultiAsset>) -> (res: Result<Self, ()>)
        ensures
            res is Ok <==> is_strictly_ordered(models(r@)),
            res matches Ok(l) ==> l@ == models(r@),
    {
        let mut i: usize = 1;
        while i < r.len()
            invariant
                1 <= i,
                forall|k: int| 0 < k < i && k < r.len() ==> #[trigger] ordered_pair(
                    models(r@)[k - 1],
                    models(r@)[k],
                ),
            decreases r.len() - i,
        {
            if !ordered_pair_exec(&r[i - 1], &r[i]) {
                proof {
                    assert(!ordered_pair(models(r@)[i - 1], models(r@)[i as int]));
                }
                return Err(());
            }
            i += 1;
        }
        Ok(MultiAssets(r))
    }

    /// The list `r` as it is, without any check.
    pub fn from_sorted_and_deduplicated_skip_checks(r: Vec<MultiAsset>) -> (res: Self)
        ensures
            res@ == models(r@),
    {
        MultiAssets(r)
    }

    /// A list read from outside: at most `MAX_ITEMS_IN_MULTIASSETS` entries,
    /// no fungible entry of amount zero, and neighbours in the order that
    /// `from_sorted_and_deduplicated` checks. The checks come in that order.
    pub fn from_decoded(r: Vec<MultiAsset>) -> (res: Result<Self, DecodeError>)
        ensures
            r.len() > MAX_ITEMS_IN_MULTIASSETS ==> res == Err::<Self, DecodeError>(
                DecodeError::TooManyItems,
            ),
            r.len() <= MAX_ITEMS_IN_MULTIASSETS ==> {
                if exists|i: int| 0 <= i < r.len() && (#[trigger] r@[i]).fun == Fungibility::Fungible(0) {
                    res == Err::<Self, DecodeError>(DecodeError::ZeroAmount)
                } else if !is_strictly_ordered(models(r@)) {
                    res == Err::<Self, DecodeError>(DecodeError::OutOfOrder)
                } else {
                    (res matches Ok(l) && l@ == models(r@))
                }
            },
    {
        if r.len() > MAX_ITEMS_IN_MULTIASSETS {
            return Err(DecodeError::TooManyItems);
        }
        let mut i: usize = 0;
        while i < r.len()
            invariant
                i <= r.len(),
                r.len() <= MAX_ITEMS_IN_MULTIASSETS,
                forall|k: int| 0 <= k < i ==> (#[trigger] r@[k]).fun != Fungibility::Fungible(0),
            decreases r.len() - i,
        {
            match r[i].fun {
                Fungibility::Fungible(0) => return Err(DecodeError::ZeroAmount),
                _ => {},
            }
            i += 1;
        }
        match MultiAssets::from_sorted_and_deduplicated(r) {
            Ok(l) => Ok(l),
            Err(()) => Err(DecodeError::OutOfOrder),
        }
    }

    /// Adds `a`, saturating: into the first entry of its class that it merges
    /// with (see `absorbs`), or else as a new entry, after which the list is
    /// sorted again.
    pub fn push(&mut self, a: MultiAsset)
        ensures
            final(self)@ == pushed(old(self)@, a@),
    {
        let mut i: usize = 0;
        while i < self.0.len()
            invariant
                self.0@ == old(self).0@,
                i <= self.0.len(),
                forall|k: int| 0 <= k < i ==> !absorbs(#[trigger] models(self.0@)[k], a@),
            decreases self.0.len() - i,
        {
            if absorbs_exec(&self.0[i], &a) {
                let merged = absorb(&self.0[i], &a);
                self.0.set(i, merged);
                proof {
                    let s = models(old(self).0@);
                    assert(forall|k: int| 0 <= k < i ==> !absorbs(#[trigger] s[k], a@));
                    let j = choose|j: int|
                        0 <= j < s.len() && absorbs(s[j], a@) && forall|k: int|
                            0 <= k < j ==> !absorbs(#[trigger] s[k], a@);
                    if j < i {
                        assert(!absorbs(s[j], a@));
                    } else if j > i {
                        assert(!absorbs(s[i as int], a@));
                    }
                    assert(models(self.0@) =~= s.update(i as int, absorbed(s[i as int], a@)));
                }
                return;
            }
            i += 1;
        }
        let ghost s = models(self.0@);
        self.0.push(a);
        let sorted = sort_assets(&self.0);
        self.0 = sorted;
        proof {
            assert(models(old(self).0@.push(a)) =~= s.push(a@));
        }
    }

    /// Whether the list is empty.
    pub fn is_none(&self) -> (r: bool)
        ensures
            r == (self@.len() == 0),
    {
        self.0.len() == 0
    }

    /// Whether some entry holds at least what `inner` describes.
    pub fn contains(&self, inner: &MultiAsset) -> (r: bool)
        ensures
            r == list_contains(self@, inner@),
    {
        let mut i: usize = 0;
        while i < self.0.len()
            invariant
                i <= self.0.len(),
                forall|k: int| 0 <= k < i ==> !asset_contains(#[trigger] self@[k], inner@),
            decreases self.0.len() - i,
        {
            if self.0[i].contains(inner) {
                proof {
                    assert(asset_contains(self@[i as int], inner@));
                }
                return true;
            }
            i += 1;
        }
        false
    }

    /// The entries; the older name of `into_inner`.
    pub fn drain(self) -> (r: Vec<MultiAsset>)
        ensures
            models(r@) == self@,
    {
        self.0
    }

    /// The entries.
    pub fn into_inner(self) -> (r: Vec<MultiAsset>)
        ensures
            models(r@) == self@,
    {
        self.0
    }

    /// The entries.
    pub fn inner(&self) -> (r: &Vec<MultiAsset>)
        ensures
            models(r@) == self@,
    {
        &self.0
    }

    /// The number of entries.
    pub fn len(&self) -> (r: usize)
        ensures
            r == self@.len(),
    {
        self.0.len()
    }

    /// The entry at `index`, if there is one.
    pub fn get(&self, index: usize) -> (r: Option<&MultiAsset>)
        ensures
            index < self@.len() ==> (r matches Some(a) && a@ == self@[index as int]),
            index >= self@.len() ==> r is None,
    {
        if index < self.0.len() {
            Some(&self.0[index])
        } else {
            None
        }
    }

    /// Prepends `prefix` to every concrete class and sorts the list again.
    /// All or nothing: if any entry fails, the list is left as it was.
    pub fn prepend_with(&mut self, prefix: &MultiLocation) -> (r: Result<(), ()>)
        ensures
            match map_ids(old(self)@, prepend_fn(prefix@)) {
                Some(s) => r is Ok && final(self)@ == sorted_assets(s),
                None => r is Err && final(self)@ == old(self)@,
            },
    {
        let mut moved: Vec<MultiAsset> = Vec::new();
        let mut i: usize = 0;
        while i < self.0.len()
            invariant
                i <= self.0.len(),
                moved.len() == i,
                forall|k: int| 0 <= k < i ==> id_prepended(#[trigger] self@[k].id, prefix@) is Some,
                forall|k: int|
                    0 <= k < i ==> #[trigger] moved@[k]@ == (AssetModel {
                        id: id_prepended(self@[k].id, prefix@)->Some_0,
                        fun: self@[k].fun,
                    }),
            decreases self.0.len() - i,
        {
            let mut a = self.0[i].clone();
            match a.prepend_with(prefix) {
                Ok(()) => {},
                Err(()) => {
                    proof {
                        assert(!((prepend_fn(prefix@))(self@[i as int].id) is Some));
                    }
                    return Err(());
                },
            }
            moved.push(a);
            i += 1;
        }
        proof {
            assert(models(moved@) =~= map_ids(self@, prepend_fn(prefix@))->Some_0);
        }
        self.0 = sort_assets(&moved);
        Ok(())
    }

    /// Re-expresses every concrete class as `target` sees it, where `context`
    /// is the local consensus system's path from the root, and sorts the list
    /// again. All or nothing: if any entry fails, the list is left as it was.
    pub fn reanchor(&mut self, target: &MultiLocation, context: &Vec<Junction>) -> (r: Result<
        (),
        (),
    >)
        ensures
            match map_ids(old(self)@, reanchor_fn(target@, context@)) {
                Some(s) => r is Ok && final(self)@ == sorted_assets(s),
                None => r is Err && final(self)@ == old(self)@,
            },
    {
        let mut moved: Vec<MultiAsset> = Vec::new();
        let mut i: usize = 0;
        while i < self.0.len()
            invariant
                i <= self.0.len(),
                moved.len() == i,
                forall|k: int|
                    0 <= k < i ==> id_reanchored(#[trigger] self@[k].id, target@, context@) is Some,
                forall|k: int|
                    0 <= k < i ==> #[trigger] moved@[k]@ == (AssetModel {
                        id: id_reanchored(self@[k].id, target@, context@)->Some_0,
                        fun: self@[k].fun,
                    }),
            decreases self.0.len() - i,
        {
            let mut a = self.0[i].clone();
            match a.reanchor(target, context) {
                Ok(()) => {},
                Err(()) => {
                    proof {
                        assert(!((reanchor_fn(target@, context@))(self@[i as int].id) is Some));
                    }
                    return Err(());
                },
            }
            moved.push(a);
            i += 1;
        }
        proof {
            assert(models(moved@) =~= map_ids(self@, reanchor_fn(target@, context@))->Some_0);
        }
        self.0 = sort_assets(&moved);
        Ok(())
    }
}

} // verus!

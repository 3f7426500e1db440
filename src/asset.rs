//! Single assets: what class an asset is of, and how much of it or which
//! instance of it.
use core::cmp::Ordering;
use vstd::prelude::*;

use crate::asset_list::DecodeError;
use crate::location::{
    lemma_location_key_separated, location_key, reanchored, prepended, Junction, LocationModel,
    MultiLocation,
};
use crate::order::{
    bytes_key, ints, keys_equal, lemma_bytes_key_injective, lemma_lex_common_prefix,
    lemma_lex_separated, lemma_separated_common_prefix, lemma_separated_heads,
    lemma_separated_differ, lemma_separated_same_len, lex_less, lex_lt, push_bytes, separated,
};

verus! {

/// Identifies one instance of a non-fungible asset class.
#[derive(Clone, Copy, Debug, PartialEq, Eq)]
pub enum AssetInstance {
    /// The class has only one instance.
    Undefined,
    /// A compact index.
    Index(u128),
    /// A 4-byte datum.
    Array4([u8; 4]),
    /// An 8-byte datum.
    Array8([u8; 8]),
    /// A 16-byte datum.
    Array16([u8; 16]),
    /// A 32-byte datum.
    Array32([u8; 32]),
}

/// A fungible amount, or one non-fungible instance.
#[derive(Clone, Copy, Debug, PartialEq, Eq)]
pub enum Fungibility {
    /// Some number of interchangeable units; never zero in a valid value.
    Fungible(u128),
    /// One instance of a non-fungible class.
    NonFungible(AssetInstance),
}

/// The kind of an asset, without an amount or an instance.
#[derive(Clone, Copy, Debug, PartialEq, Eq)]
pub enum WildFungibility {
    Fungible,
    NonFungible,
}

/// The class of an asset.
#[derive(Debug, PartialEq, Eq)]
pub enum AssetId {
    /// A specific location that identifies the asset.
    Concrete(MultiLocation),
    /// An abstract name, which may mean different locations on different chains.
    Abstract([u8; 32]),
}

/// One concrete holding: an asset class and how much of it, or which instance.
#[derive(Debug, PartialEq, Eq)]
pub struct MultiAsset {
    pub id: AssetId,
    pub fun: Fungibility,
}

/// What an asset class is.
pub ghost enum AssetIdModel {
    Concrete(LocationModel),
    Abstract([u8; 32]),
}

/// What a single asset is.
pub ghost struct AssetModel {
    pub id: AssetIdModel,
    pub fun: Fungibility,
}

impl View for AssetId {
    type V = AssetIdModel;

    open spec fn view(&self) -> AssetIdModel {
        match self {
            AssetId::Concrete(l) => AssetIdModel::Concrete(l@),
            AssetId::Abstract(a) => AssetIdModel::Abstract(*a),
        }
    }
}

impl View for MultiAsset {
    type V = AssetModel;

    open spec fn view(&self) -> AssetModel {
        AssetModel { id: self.id@, fun: self.fun }
    }
}

// ---------------------------------------------------------------------------
// Sort keys and the canonical order
// ---------------------------------------------------------------------------

pub open spec fn instance_key(i: AssetInstance) -> Seq<int> {
    match i {
        AssetInstance::Undefined => seq![0int],
        AssetInstance::Index(n) => seq![1int, n as int],
        AssetInstance::Array4(a) => seq![2int] + bytes_key(a@),
        AssetInstance::Array8(a) => seq![3int] + bytes_key(a@),
        AssetInstance::Array16(a) => seq![4int] + bytes_key(a@),
        AssetInstance::Array32(a) => seq![5int] + bytes_key(a@),
    }
}

pub open spec fn fungibility_key(f: Fungibility) -> Seq<int> {
    match f {
        Fungibility::Fungible(n) => seq![0int, n as int],
        Fungibility::NonFungible(i) => seq![1int] + instance_key(i),
    }
}

pub open spec fn id_key(id: AssetIdModel) -> Seq<int> {
    match id {
        AssetIdModel::Concrete(l) => seq![0int] + location_key(l),
        AssetIdModel::Abstract(a) => seq![1int] + bytes_key(a@),
    }
}

/// 0 for a fungible asset, 1 for a non-fungible one.
pub open spec fn kind_rank(f: Fungibility) -> int {
    match f {
        Fungibility::Fungible(_) => 0,
        Fungibility::NonFungible(_) => 1,
    }
}

/// The sort key of an asset: fungible assets come before non-fungible ones
/// whatever their class; within one kind, assets order by class, then by
/// amount or instance.
pub open spec fn asset_key(a: AssetModel) -> Seq<int> {
    seq![kind_rank(a.fun)] + id_key(a.id) + fungibility_key(a.fun)
}

/// The strict order on asset classes.
pub open spec fn id_lt(a: AssetIdModel, b: AssetIdModel) -> bool {
    lex_lt(id_key(a), id_key(b))
}

/// The canonical strict order on assets.
pub open spec fn asset_lt(a: AssetModel, b: AssetModel) -> bool {
    lex_lt(asset_key(a), asset_key(b))
}

/// Where `a` stands against `b` in the canonical order.
pub open spec fn asset_cmp(a: AssetModel, b: AssetModel) -> Ordering {
    if asset_lt(a, b) {
        Ordering::Less
    } else if a == b {
        Ordering::Equal
    } else {
        Ordering::Greater
    }
}

/// The canonical order on assets, equality included.
pub open spec fn asset_le(a: AssetModel, b: AssetModel) -> bool {
    a == b || asset_lt(a, b)
}

pub open spec fn fungibility_is_kind(f: Fungibility, w: WildFungibility) -> bool {
    match (f, w) {
        (Fungibility::Fungible(_), WildFungibility::Fungible) => true,
        (Fungibility::NonFungible(_), WildFungibility::NonFungible) => true,
        _ => false,
    }
}

/// `outer` holds at least what `inner` describes: the same class, and either
/// both fungible with at least as much, or both the same non-fungible instance.
pub open spec fn asset_contains(outer: AssetModel, inner: AssetModel) -> bool {
    outer.id == inner.id && match (outer.fun, inner.fun) {
        (Fungibility::Fungible(a), Fungibility::Fungible(i)) => a >= i,
        (Fungibility::NonFungible(a), Fungibility::NonFungible(i)) => a == i,
        _ => false,
    }
}

/// `id` prepended with `prefix`, where that applies; `None` on failure.
pub open spec fn id_prepended(id: AssetIdModel, prefix: LocationModel) -> Option<AssetIdModel> {
    match id {
        AssetIdModel::Concrete(l) => match prepended(l, prefix) {
            Some(n) => Some(AssetIdModel::Concrete(n)),
            None => None,
        },
        AssetIdModel::Abstract(_) => Some(id),
    }
}

/// `id` as `target` sees it, where that applies; `None` on failure.
pub open spec fn id_reanchored(
    id: AssetIdModel,
    target: LocationModel,
    context: Seq<Junction>,
) -> Option<AssetIdModel> {
    match id {
        AssetIdModel::Concrete(l) => match reanchored(l, target, context) {
            Some(n) => Some(AssetIdModel::Concrete(n)),
            None => None,
        },
        AssetIdModel::Abstract(_) => Some(id),
    }
}

pub proof fn lemma_instance_key_separated(a: AssetInstance, b: AssetInstance)
    requires
        a != b,
    ensures
        separated(instance_key(a), instance_key(b)),
{
    let ka = instance_key(a);
    let kb = instance_key(b);
    if ka[0] != kb[0] {
        lemma_separated_heads(ka, kb);
    } else {
        assert(ka.len() == kb.len());
        if ka == kb {
            match (a, b) {
                (AssetInstance::Array4(x), AssetInstance::Array4(y)) => {
                    assert(bytes_key(x@) =~= ka.drop_first());
                    assert(bytes_key(y@) =~= kb.drop_first());
                    lemma_bytes_key_injective(x@, y@);
                    assert(x =~= y);
                },
                (AssetInstance::Array8(x), AssetInstance::Array8(y)) => {
                    assert(bytes_key(x@) =~= ka.drop_first());
                    assert(bytes_key(y@) =~= kb.drop_first());
                    lemma_bytes_key_injective(x@, y@);
                    assert(x =~= y);
                },
                (AssetInstance::Array16(x), AssetInstance::Array16(y)) => {
                    assert(bytes_key(x@) =~= ka.drop_first());
                    assert(bytes_key(y@) =~= kb.drop_first());
                    lemma_bytes_key_injective(x@, y@);
                    assert(x =~= y);
                },
                (AssetInstance::Array32(x), AssetInstance::Array32(y)) => {
                    assert(bytes_key(x@) =~= ka.drop_first());
                    assert(bytes_key(y@) =~= kb.drop_first());
                    lemma_bytes_key_injective(x@, y@);
                    assert(x =~= y);
                },
                (AssetInstance::Index(_), AssetInstance::Index(_)) => {
                    assert(ka[1] == kb[1]);
                },
                _ => {},
            }
        }
        lemma_separated_same_len(ka, kb);
    }
}

pub proof fn lemma_fungibility_key_separated(a: Fungibility, b: Fungibility)
    requires
        a != b,
    ensures
        separated(fungibility_key(a), fungibility_key(b)),
{
    match (a, b) {
        (Fungibility::Fungible(x), Fungibility::Fungible(y)) => {
            assert(fungibility_key(a)[1] != fungibility_key(b)[1]);
        },
        (Fungibility::NonFungible(x), Fungibility::NonFungible(y)) => {
            lemma_instance_key_separated(x, y);
            lemma_separated_common_prefix(seq![1int], instance_key(x), instance_key(y));
        },
        _ => {
            lemma_separated_heads(fungibility_key(a), fungibility_key(b));
        },
    }
}

pub proof fn lemma_id_key_separated(a: AssetIdModel, b: AssetIdModel)
    requires
        a != b,
    ensures
        separated(id_key(a), id_key(b)),
{
    match (a, b) {
        (AssetIdModel::Concrete(x), AssetIdModel::Concrete(y)) => {
            lemma_location_key_separated(x, y);
            lemma_separated_common_prefix(seq![0int], location_key(x), location_key(y));
        },
        (AssetIdModel::Abstract(x), AssetIdModel::Abstract(y)) => {
            if id_key(a) == id_key(b) {
                assert(bytes_key(x@) =~= id_key(a).drop_first());
                assert(bytes_key(y@) =~= id_key(b).drop_first());
                lemma_bytes_key_injective(x@, y@);
                assert(x =~= y);
            }
            lemma_separated_same_len(id_key(a), id_key(b));
        },
        _ => {
            lemma_separated_heads(id_key(a), id_key(b));
        },
    }
}

/// Within one kind, assets of different classes order by class.
pub proof fn lemma_asset_lt_by_id(a: AssetModel, b: AssetModel)
    requires
        kind_rank(a.fun) == kind_rank(b.fun),
        a.id != b.id,
    ensures
        asset_lt(a, b) == id_lt(a.id, b.id),
        separated(asset_key(a), asset_key(b)),
{
    let k = seq![kind_rank(a.fun)];
    lemma_id_key_separated(a.id, b.id);
    lemma_lex_separated(id_key(a.id), id_key(b.id), fungibility_key(a.fun), fungibility_key(b.fun));
    assert(asset_key(a) =~= k + (id_key(a.id) + fungibility_key(a.fun)));
    assert(asset_key(b) =~= k + (id_key(b.id) + fungibility_key(b.fun)));
    lemma_lex_common_prefix(
        k,
        id_key(a.id) + fungibility_key(a.fun),
        id_key(b.id) + fungibility_key(b.fun),
    );
    lemma_separated_common_prefix(
        k,
        id_key(a.id) + fungibility_key(a.fun),
        id_key(b.id) + fungibility_key(b.fun),
    );
}

/// Different assets have separated keys, so that exactly one of them sorts first.
pub proof fn lemma_asset_key_separated(a: AssetModel, b: AssetModel)
    requires
        a != b,
    ensures
        separated(asset_key(a), asset_key(b)),
{
    if kind_rank(a.fun) != kind_rank(b.fun) {
        lemma_separated_heads(asset_key(a), asset_key(b));
    } else if a.id != b.id {
        lemma_asset_lt_by_id(a, b);
    } else {
        assert(a.fun != b.fun);
        lemma_fungibility_key_separated(a.fun, b.fun);
        let p = seq![kind_rank(a.fun)] + id_key(a.id);
        assert(asset_key(a) =~= p + fungibility_key(a.fun));
        assert(asset_key(b) =~= p + fungibility_key(b.fun));
        lemma_separated_common_prefix(p, fungibility_key(a.fun), fungibility_key(b.fun));
    }
}

/// A fungible asset sorts before a non-fungible one, whatever their classes.
pub proof fn lemma_asset_lt_by_kind(a: AssetModel, b: AssetModel)
    requires
        kind_rank(a.fun) != kind_rank(b.fun),
    ensures
        asset_lt(a, b) == (a.fun is Fungible),
{
}

// ---------------------------------------------------------------------------
// Executable keys and comparisons
// ---------------------------------------------------------------------------

fn push_instance_key(k: &mut Vec<u128>, i: &AssetInstance)
    ensures
        ints(final(k)@) == ints(old(k)@) + instance_key(*i),
{
    let ghost start = ints(k@);
    match i {
        AssetInstance::Undefined => {
            k.push(0);
        },
        AssetInstance::Index(n) => {
            k.push(1);
            k.push(*n);
        },
        AssetInstance::Array4(a) => {
            k.push(2);
            push_bytes(k, a);
        },
        AssetInstance::Array8(a) => {
            k.push(3);
            push_bytes(k, a);
        },
        AssetInstance::Array16(a) => {
            k.push(4);
            push_bytes(k, a);
        },
        AssetInstance::Array32(a) => {
            k.push(5);
            push_bytes(k, a);
        },
    }
    proof {
        assert(ints(k@) =~= start + instance_key(*i));
    }
}

fn push_fungibility_key(k: &mut Vec<u128>, f: &Fungibility)
    ensures
        ints(final(k)@) == ints(old(k)@) + fungibility_key(*f),
{
    let ghost start = ints(k@);
    match f {
        Fungibility::Fungible(n) => {
            k.push(0);
            k.push(*n);
        },
        Fungibility::NonFungible(i) => {
            k.push(1);
            push_instance_key(k, i);
        },
    }
    proof {
        assert(ints(k@) =~= start + fungibility_key(*f));
    }
}

fn push_id_key(k: &mut Vec<u128>, id: &AssetId)
    ensures
        ints(final(k)@) == ints(old(k)@) + id_key(id@),
{
    let ghost start = ints(k@);
    match id {
        AssetId::Concrete(l) => {
            k.push(0);
            let lk = l.key();
            let mut i: usize = 0;
            while i < lk.len()
                invariant
                    i <= lk.len(),
                    ints(k@) == start + seq![0int] + ints(lk@.subrange(0, i as int)),
                decreases lk.len() - i,
            {
                let ghost before = k@;
                k.push(lk[i]);
                i += 1;
                proof {
                    assert(ints(k@) =~= ints(before).push(lk@[i - 1] as int));
                    assert(ints(lk@.subrange(0, i as int)) =~= ints(lk@.subrange(0, i - 1)).push(
                        lk@[i - 1] as int,
                    ));
                }
            }
            proof {
                assert(lk@.subrange(0, i as int) =~= lk@);
            }
        },
        AssetId::Abstract(a) => {
            k.push(1);
            push_bytes(k, a);
        },
    }
    proof {
        assert(ints(k@) =~= start + id_key(id@));
    }
}

/// Whether two non-fungible instances are the same.
pub fn instance_eq(a: &AssetInstance, b: &AssetInstance) -> (r: bool)
    ensures
        r == (*a == *b),
{
    let mut ka: Vec<u128> = Vec::new();
    push_instance_key(&mut ka, a);
    let mut kb: Vec<u128> = Vec::new();
    push_instance_key(&mut kb, b);
    proof {
        assert(ints(ka@) =~= instance_key(*a));
        assert(ints(kb@) =~= instance_key(*b));
        if *a != *b {
            lemma_instance_key_separated(*a, *b);
        }
    }
    keys_equal(&ka, &kb)
}

impl Clone for AssetId {
    fn clone(&self) -> (r: Self)
        ensures
            r@ == self@,
    {
        match self {
            AssetId::Concrete(l) => AssetId::Concrete(l.clone()),
            AssetId::Abstract(a) => AssetId::Abstract(*a),
        }
    }
}

impl Clone for MultiAsset {
    fn clone(&self) -> (r: Self)
        ensures
            r@ == self@,
    {
        MultiAsset { id: self.id.clone(), fun: self.fun }
    }
}

impl Fungibility {
    /// This value as read from outside: a fungible amount of zero is refused.
    pub fn checked(self) -> (r: Result<Fungibility, DecodeError>)
        ensures
            self == Fungibility::Fungible(0) ==> r == Err::<Fungibility, DecodeError>(
                DecodeError::ZeroAmount,
            ),
            self != Fungibility::Fungible(0) ==> r == Ok::<Fungibility, DecodeError>(self),
    {
        match self {
            Fungibility::Fungible(0) => Err(DecodeError::ZeroAmount),
            _ => Ok(self),
        }
    }

    /// Whether this is of the kind `w`.
    pub fn is_kind(&self, w: WildFungibility) -> (r: bool)
        ensures
            r == fungibility_is_kind(*self, w),
    {
        match (self, w) {
            (Fungibility::Fungible(_), WildFungibility::Fungible) => true,
            (Fungibility::NonFungible(_), WildFungibility::NonFungible) => true,
            _ => false,
        }
    }
}

impl AssetId {
    /// The sort key of this class.
    pub fn key(&self) -> (k: Vec<u128>)
        ensures
            ints(k@) == id_key(self@),
    {
        let mut k: Vec<u128> = Vec::new();
        push_id_key(&mut k, self);
        proof {
            assert(ints(k@) =~= id_key(self@));
        }
        k
    }

    /// Whether this is the same class as `other`.
    pub fn same_as(&self, other: &AssetId) -> (r: bool)
        ensures
            r == (self@ == other@),
    {
        let a = self.key();
        let b = other.key();
        proof {
            if self@ != other@ {
                lemma_id_key_separated(self@, other@);
            }
        }
        keys_equal(&a, &b)
    }

    /// Prepends `prefix` to a concrete class, giving it a new root. An
    /// abstract class is left as it is. On failure nothing changes.
    pub fn prepend_with(&mut self, prefix: &MultiLocation) -> (r: Result<(), ()>)
        ensures
            match id_prepended(old(self)@, prefix@) {
                Some(id) => r is Ok && final(self)@ == id,
                None => r is Err && final(self)@ == old(self)@,
            },
    {
        match self {
            AssetId::Concrete(l) => l.prepend_with(prefix),
            AssetId::Abstract(_) => Ok(()),
        }
    }

    /// Re-expresses a concrete class as `target` sees it, where `context` is
    /// the local consensus system's path from the root. An abstract class is
    /// left as it is. On failure nothing changes.
    pub fn reanchor(&mut self, target: &MultiLocation, context: &Vec<Junction>) -> (r: Result<
        (),
        (),
    >)
        ensures
            match id_reanchored(old(self)@, target@, context@) {
                Some(id) => r is Ok && final(self)@ == id,
                None => r is Err && final(self)@ == old(self)@,
            },
    {
        match self {
            AssetId::Concrete(l) => l.reanchor(target, context),
            AssetId::Abstract(_) => Ok(()),
        }
    }

    /// The asset of this class with fungibility `fun`.
    pub fn into_multiasset(self, fun: Fungibility) -> (r: MultiAsset)
        ensures
            r@ == (AssetModel { id: self@, fun }),
    {
        MultiAsset { fun, id: self }
    }
}

impl MultiAsset {
    /// The sort key of this asset.
    pub fn key(&self) -> (k: Vec<u128>)
        ensures
            ints(k@) == asset_key(self@),
    {
        let mut k: Vec<u128> = Vec::new();
        match self.fun {
            Fungibility::Fungible(_) => k.push(0),
            Fungibility::NonFungible(_) => k.push(1),
        }
        proof {
            assert(ints(k@) =~= seq![kind_rank(self.fun)]);
        }
        push_id_key(&mut k, &self.id);
        push_fungibility_key(&mut k, &self.fun);
        k
    }

    /// Where this asset stands against `other` in the canonical order.
    pub fn cmp(&self, other: &MultiAsset) -> (r: Ordering)
        ensures
            r == asset_cmp(self@, other@),
    {
        let a = self.key();
        let b = other.key();
        proof {
            if self@ != other@ {
                lemma_asset_key_separated(self@, other@);
                lemma_separated_differ(asset_key(self@), asset_key(other@));
            }
        }
        if lex_less(&a, &b) {
            Ordering::Less
        } else if keys_equal(&a, &b) {
            Ordering::Equal
        } else {
            Ordering::Greater
        }
    }

    /// Whether this asset is fungible and, when `maybe_id` names a class, of
    /// that class.
    pub fn is_fungible(&self, maybe_id: Option<AssetId>) -> (r: bool)
        ensures
            r == (self.fun is Fungible && match maybe_id {
                Some(id) => id@ == self.id@,
                None => true,
            }),
    {
        let fungible = match self.fun {
            Fungibility::Fungible(_) => true,
            Fungibility::NonFungible(_) => false,
        };
        fungible && match maybe_id {
            Some(id) => id.same_as(&self.id),
            None => true,
        }
    }

    /// Whether this asset is non-fungible and, when `maybe_id` names a class,
    /// of that class.
    pub fn is_non_fungible(&self, maybe_id: Option<AssetId>) -> (r: bool)
        ensures
            r == (self.fun is NonFungible && match maybe_id {
                Some(id) => id@ == self.id@,
                None => true,
            }),
    {
        let non_fungible = match self.fun {
            Fungibility::Fungible(_) => false,
            Fungibility::NonFungible(_) => true,
        };
        non_fungible && match maybe_id {
            Some(id) => id.same_as(&self.id),
            None => true,
        }
    }

    /// Prepends `prefix` to the class, if it is concrete. On failure nothing
    /// changes.
    pub fn prepend_with(&mut self, prefix: &MultiLocation) -> (r: Result<(), ()>)
        ensures
            final(self).fun == old(self).fun,
            match id_prepended(old(self)@.id, prefix@) {
                Some(id) => r is Ok && final(self)@.id == id,
                None => r is Err && final(self)@ == old(self)@,
            },
    {
        self.id.prepend_with(prefix)
    }

    /// Re-expresses the class, if it is concrete, as `target` sees it. On
    /// failure nothing changes.
    pub fn reanchor(&mut self, target: &MultiLocation, context: &Vec<Junction>) -> (r: Result<
        (),
        (),
    >)
        ensures
            final(self).fun == old(self).fun,
            match id_reanchored(old(self)@.id, target@, context@) {
                Some(id) => r is Ok && final(self)@.id == id,
                None => r is Err && final(self)@ == old(self)@,
            },
    {
        self.id.reanchor(target, context)
    }

    /// This asset with its class re-expressed as `target` sees it.
    pub fn reanchored(self, target: &MultiLocation, context: &Vec<Junction>) -> (r: Result<
        MultiAsset,
        (),
    >)
        ensures
            match id_reanchored(self@.id, target@, context@) {
                Some(id) => r is Ok && r->Ok_0@ == (AssetModel { id, fun: self.fun }),
                None => r is Err,
            },
    {
        let mut a = self;
        match a.id.reanchor(target, context) {
            Ok(()) => Ok(a),
            Err(()) => Err(()),
        }
    }

    /// Whether this asset holds at least what `inner` describes.
    pub fn contains(&self, inner: &MultiAsset) -> (r: bool)
        ensures
            r == asset_contains(self@, inner@),
    {
        if self.id.same_as(&inner.id) {
            match (&self.fun, &inner.fun) {
                (Fungibility::Fungible(a), Fungibility::Fungible(i)) => *a >= *i,
                (Fungibility::NonFungible(a), Fungibility::NonFungible(i)) => instance_eq(a, i),
                _ => false,
            }
        } else {
            false
        }
    }
}

} // verus!

//! Wildcards over assets, and filters that are either an exact list or a
//! wildcard.
use vstd::prelude::*;

use crate::asset::{
    fungibility_is_kind, id_reanchored, AssetId, AssetIdModel, AssetModel, MultiAsset,
    WildFungibility,
};
use crate::asset_list::{list_contains, map_ids, reanchor_fn, sorted_assets, MultiAssets};
use crate::location::{Junction, LocationModel, MultiLocation};

verus! {

/// A wildcard: a description of assets by shape rather than by content.
#[derive(Debug, PartialEq, Eq)]
pub enum WildMultiAsset {
    /// Every asset.
    All,
    /// Every asset of class `id` and kind `fun`.
    AllOf { id: AssetId, fun: WildFungibility },
    /// Every asset, up to the given number of individual assets.
    AllCounted(u32),
    /// Every asset of class `id` and kind `fun`, up to `count` individual assets.
    AllOfCounted { id: AssetId, fun: WildFungibility, count: u32 },
}

/// A set of assets: an exact list, or a wildcard.
#[derive(Debug, PartialEq, Eq)]
pub enum MultiAssetFilter {
    /// Everything that the list holds.
    Definite(MultiAssets),
    /// Everything that the wildcard describes.
    Wild(WildMultiAsset),
}

/// What a wildcard is.
pub ghost enum WildModel {
    All,
    AllOf { id: AssetIdModel, fun: WildFungibility },
    AllCounted(u32),
    AllOfCounted { id: AssetIdModel, fun: WildFungibility, count: u32 },
}

/// What a filter is.
pub ghost enum FilterModel {
    Definite(Seq<AssetModel>),
    Wild(WildModel),
}

impl View for WildMultiAsset {
    type V = WildModel;

    open spec fn view(&self) -> WildModel {
        match self {
            WildMultiAsset::All => WildModel::All,
            WildMultiAsset::AllOf { id, fun } => WildModel::AllOf { id: id@, fun: *fun },
            WildMultiAsset::AllCounted(n) => WildModel::AllCounted(*n),
            WildMultiAsset::AllOfCounted { id, fun, count } => WildModel::AllOfCounted {
                id: id@,
                fun: *fun,
                count: *count,
            },
        }
    }
}

impl View for MultiAssetFilter {
    type V = FilterModel;

    open spec fn view(&self) -> FilterModel {
        match self {
            MultiAssetFilter::Definite(l) => FilterModel::Definite(l@),
            MultiAssetFilter::Wild(w) => FilterModel::Wild(w@),
        }
    }
}

/// Whether the wildcard `w` takes in `inner`: never with a count of zero;
/// the class-bound forms when `inner` is of that class and kind; the others
/// always.
pub open spec fn wild_contains(w: WildModel, inner: AssetModel) -> bool {
    match w {
        WildModel::All => true,
        WildModel::AllCounted(n) => n != 0,
        WildModel::AllOf { id, fun } => fungibility_is_kind(inner.fun, fun) && inner.id == id,
        WildModel::AllOfCounted { id, fun, count } => count != 0 && fungibility_is_kind(
            inner.fun,
            fun,
        ) && inner.id == id,
    }
}

/// The cap of a wildcard, if it has one.
pub open spec fn wild_count(w: WildModel) -> Option<u32> {
    match w {
        WildModel::AllCounted(n) => Some(n),
        WildModel::AllOfCounted { count, .. } => Some(count),
        _ => None,
    }
}

/// `w` as its counted form, with the cap `count`.
pub open spec fn wild_counted(w: WildModel, count: u32) -> WildModel {
    match w {
        WildModel::AllOf { id, fun } => WildModel::AllOfCounted { id, fun, count },
        WildModel::AllOfCounted { id, fun, .. } => WildModel::AllOfCounted { id, fun, count },
        _ => WildModel::AllCounted(count),
    }
}

/// `w` with its class, if it names one, as `target` sees it.
pub open spec fn wild_reanchored(
    w: WildModel,
    target: LocationModel,
    context: Seq<Junction>,
) -> Option<WildModel> {
    match w {
        WildModel::AllOf { id, fun } => match id_reanchored(id, target, context) {
            Some(n) => Some(WildModel::AllOf { id: n, fun }),
            None => None,
        },
        WildModel::AllOfCounted { id, fun, count } => match id_reanchored(id, target, context) {
            Some(n) => Some(WildModel::AllOfCounted { id: n, fun, count }),
            None => None,
        },
        _ => Some(w),
    }
}

/// Whether the filter `f` takes in `inner`.
pub open spec fn filter_matches(f: FilterModel, inner: AssetModel) -> bool {
    match f {
        FilterModel::Definite(s) => list_contains(s, inner),
        FilterModel::Wild(w) => wild_contains(w, inner),
    }
}

/// `f` as `target` sees it.
pub open spec fn filter_reanchored(
    f: FilterModel,
    target: LocationModel,
    context: Seq<Junction>,
) -> Option<FilterModel> {
    match f {
        FilterModel::Definite(s) => match map_ids(s, reanchor_fn(target, context)) {
            Some(t) => Some(FilterModel::Definite(sorted_assets(t))),
            None => None,
        },
        FilterModel::Wild(w) => match wild_reanchored(w, target, context) {
            Some(v) => Some(FilterModel::Wild(v)),
            None => None,
        },
    }
}

/// A length as a `u32`, saturating.
pub open spec fn count_of(n: nat) -> u32 {
    if n > u32::MAX {
        u32::MAX
    } else {
        n as u32
    }
}

impl Clone for WildMultiAsset {
    fn clone(&self) -> (r: Self)
        ensures
            r@ == self@,
    {
        match self {
            WildMultiAsset::All => WildMultiAsset::All,
            WildMultiAsset::AllOf { id, fun } => WildMultiAsset::AllOf { id: id.clone(), fun: *fun },
            WildMultiAsset::AllCounted(n) => WildMultiAsset::AllCounted(*n),
            WildMultiAsset::AllOfCounted { id, fun, count } => WildMultiAsset::AllOfCounted {
                id: id.clone(),
                fun: *fun,
                count: *count,
            },
        }
    }
}

impl Clone for MultiAssetFilter {
    fn clone(&self) -> (r: Self)
        ensures
            r@ == self@,
    {
        match self {
            MultiAssetFilter::Definite(l) => MultiAssetFilter::Definite(l.clone()),
            MultiAssetFilter::Wild(w) => MultiAssetFilter::Wild(w.clone()),
        }
    }
}

impl AssetId {
    /// The wildcard for every asset of this class and kind `fun`.
    pub fn into_wild(self, fun: WildFungibility) -> (r: WildMultiAsset)
        ensures
            r@ == (WildModel::AllOf { id: self@, fun }),
    {
        WildMultiAsset::AllOf { fun, id: self }
    }
}

impl WildMultiAsset {
    /// Whether this wildcard takes in `inner`.
    pub fn contains(&self, inner: &MultiAsset) -> (r: bool)
        ensures
            r == wild_contains(self@, inner@),
    {
        match self {
            WildMultiAsset::AllOfCounted { count: 0, .. } | WildMultiAsset::AllCounted(0) => false,
            WildMultiAsset::AllOf { fun, id } | WildMultiAsset::AllOfCounted { id, fun, .. } => {
                inner.fun.is_kind(*fun) && inner.id.same_as(id)
            },
            WildMultiAsset::All | WildMultiAsset::AllCounted(_) => true,
        }
    }

    /// The older name of `contains`: the count is ignored but for zero.
    pub fn matches(&self, inner: &MultiAsset) -> (r: bool)
        ensures
            r == wild_contains(self@, inner@),
    {
        self.contains(inner)
    }

    /// Re-expresses the class, if the wildcard names one, as `target` sees
    /// it. On failure nothing changes.
    pub fn reanchor(&mut self, target: &MultiLocation, context: &Vec<Junction>) -> (r: Result<
        (),
        (),
    >)
        ensures
            match wild_reanchored(old(self)@, target@, context@) {
                Some(w) => r is Ok && final(self)@ == w,
                None => r is Err && final(self)@ == old(self)@,
            },
    {
        match self {
            WildMultiAsset::AllOf { id, .. } => id.reanchor(target, context),
            WildMultiAsset::AllOfCounted { id, .. } => id.reanchor(target, context),
            WildMultiAsset::All | WildMultiAsset::AllCounted(_) => Ok(()),
        }
    }

    /// The most assets that this wildcard may take in, if it says.
    pub fn count(&self) -> (r: Option<u32>)
        ensures
            r == wild_count(self@),
    {
        match self {
            WildMultiAsset::AllOfCounted { count, .. } | WildMultiAsset::AllCounted(count) => Some(
                *count,
            ),
            WildMultiAsset::All | WildMultiAsset::AllOf { .. } => None,
        }
    }

    /// The explicit cap on how many assets this wildcard takes in, if any.
    pub fn limit(&self) -> (r: Option<u32>)
        ensures
            r == wild_count(self@),
    {
        self.count()
    }

    /// The counted form of this wildcard, with the cap `count` in place of
    /// any earlier one.
    pub fn counted(self, count: u32) -> (r: Self)
        ensures
            r@ == wild_counted(self@, count),
    {
        match self {
            WildMultiAsset::AllOfCounted { fun, id, .. } | WildMultiAsset::AllOf { fun, id } => {
                WildMultiAsset::AllOfCounted { fun, id, count }
            },
            WildMultiAsset::All | WildMultiAsset::AllCounted(_) => WildMultiAsset::AllCounted(count),
        }
    }
}

impl MultiAssetFilter {
    /// Whether `inner` is taken in: by some entry of a list, or by the wildcard.
    pub fn matches(&self, inner: &MultiAsset) -> (r: bool)
        ensures
            r == filter_matches(self@, inner@),
    {
        match self {
            MultiAssetFilter::Definite(assets) => assets.contains(inner),
            MultiAssetFilter::Wild(wild) => wild.contains(inner),
        }
    }

    /// Re-expresses every class in the filter as `target` sees it. On failure
    /// nothing changes.
    pub fn reanchor(&mut self, target: &MultiLocation, context: &Vec<Junction>) -> (r: Result<
        (),
        (),
    >)
        ensures
            match filter_reanchored(old(self)@, target@, context@) {
                Some(f) => r is Ok && final(self)@ == f,
                None => r is Err && final(self)@ == old(self)@,
            },
    {
        match self {
            MultiAssetFilter::Definite(assets) => assets.reanchor(target, context),
            MultiAssetFilter::Wild(wild) => wild.reanchor(target, context),
        }
    }

    /// How many assets the filter may take in, if known: the number of
    /// entries of a list (saturating at `u32::MAX`), or the wildcard's cap.
    pub fn count(&self) -> (r: Option<u32>)
        ensures
            r == match self@ {
                FilterModel::Definite(s) => Some(count_of(s.len())),
                FilterModel::Wild(w) => wild_count(w),
            },
    {
        match self {
            MultiAssetFilter::Definite(x) => {
                let n = x.len();
                if n > u32::MAX as usize {
                    Some(u32::MAX)
                } else {
                    Some(n as u32)
                }
            },
            MultiAssetFilter::Wild(x) => x.count(),
        }
    }

    /// The explicit cap on how many assets the filter takes in: none for a
    /// list, the wildcard's own otherwise.
    pub fn limit(&self) -> (r: Option<u32>)
        ensures
            r == match self@ {
                FilterModel::Definite(_) => None,
                FilterModel::Wild(w) => wild_count(w),
            },
    {
        match self {
            MultiAssetFilter::Definite(_) => None,
            MultiAssetFilter::Wild(x) => x.limit(),
        }
    }
}

} // verus!

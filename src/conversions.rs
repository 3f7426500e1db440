//! Conversions between the asset types and plain values.
use vstd::prelude::*;
use vstd::std_specs::convert::{FromSpecImpl, TryFromSpecImpl};

use crate::asset::{AssetId, AssetInstance, Fungibility, MultiAsset, WildFungibility};
use crate::asset_list::{canonical_form, models, MultiAssets};
use crate::location::MultiLocation;
use crate::wild::{FilterModel, MultiAssetFilter, WildMultiAsset};

verus! {

impl From<()> for AssetInstance {
    fn from(_x: ()) -> Self {
        AssetInstance::Undefined
    }
}

impl FromSpecImpl<()> for AssetInstance {
    open spec fn obeys_from_spec() -> bool {
        true
    }

    open spec fn from_spec(x: ()) -> Self {
        AssetInstance::Undefined
    }
}

impl From<[u8; 4]> for AssetInstance {
    fn from(x: [u8; 4]) -> Self {
        AssetInstance::Array4(x)
    }
}

impl FromSpecImpl<[u8; 4]> for AssetInstance {
    open spec fn obeys_from_spec() -> bool {
        true
    }

    open spec fn from_spec(x: [u8; 4]) -> Self {
        AssetInstance::Array4(x)
    }
}

impl From<[u8; 8]> for AssetInstance {
    fn from(x: [u8; 8]) -> Self {
        AssetInstance::Array8(x)
    }
}

impl FromSpecImpl<[u8; 8]> for AssetInstance {
    open spec fn obeys_from_spec() -> bool {
        true
    }

    open spec fn from_spec(x: [u8; 8]) -> Self {
        AssetInstance::Array8(x)
    }
}

impl From<[u8; 16]> for AssetInstance {
    fn from(x: [u8; 16]) -> Self {
        AssetInstance::Array16(x)
    }
}

impl FromSpecImpl<[u8; 16]> for AssetInstance {
    open spec fn obeys_from_spec() -> bool {
        true
    }

    open spec fn from_spec(x: [u8; 16]) -> Self {
        AssetInstance::Array16(x)
    }
}

impl From<[u8; 32]> for AssetInstance {
    fn from(x: [u8; 32]) -> Self {
        AssetInstance::Array32(x)
    }
}

impl FromSpecImpl<[u8; 32]> for AssetInstance {
    open spec fn obeys_from_spec() -> bool {
        true
    }

    open spec fn from_spec(x: [u8; 32]) -> Self {
        AssetInstance::Array32(x)
    }
}

impl From<u8> for AssetInstance {
    fn from(x: u8) -> Self {
        AssetInstance::Index(x as u128)
    }
}

impl FromSpecImpl<u8> for AssetInstance {
    open spec fn obeys_from_spec() -> bool {
        true
    }

    open spec fn from_spec(x: u8) -> Self {
        AssetInstance::Index(x as u128)
    }
}

impl From<u16> for AssetInstance {
    fn from(x: u16) -> Self {
        AssetInstance::Index(x as u128)
    }
}

impl FromSpecImpl<u16> for AssetInstance {
    open spec fn obeys_from_spec() -> bool {
        true
    }

    open spec fn from_spec(x: u16) -> Self {
        AssetInstance::Index(x as u128)
    }
}

impl From<u32> for AssetInstance {
    fn from(x: u32) -> Self {
        AssetInstance::Index(x as u128)
    }
}

impl FromSpecImpl<u32> for AssetInstance {
    open spec fn obeys_from_spec() -> bool {
        true
    }

    open spec fn from_spec(x: u32) -> Self {
        AssetInstance::Index(x as u128)
    }
}

impl From<u64> for AssetInstance {
    fn from(x: u64) -> Self {
        AssetInstance::Index(x as u128)
    }
}

impl FromSpecImpl<u64> for AssetInstance {
    open spec fn obeys_from_spec() -> bool {
        true
    }

    open spec fn from_spec(x: u64) -> Self {
        AssetInstance::Index(x as u128)
    }
}

impl TryFrom<AssetInstance> for () {
    type Error = ();

    fn try_from(x: AssetInstance) -> Result<(), ()> {
        match x {
            AssetInstance::Undefined => Ok(()),
            _ => Err(()),
        }
    }
}

impl TryFromSpecImpl<AssetInstance> for () {
    open spec fn obeys_try_from_spec() -> bool {
        true
    }

    open spec fn try_from_spec(x: AssetInstance) -> Result<(), ()> {
        match x {
            AssetInstance::Undefined => Ok(()),
            _ => Err(()),
        }
    }
}

impl TryFrom<AssetInstance> for [u8; 4] {
    type Error = ();

    fn try_from(x: AssetInstance) -> Result<[u8; 4], ()> {
        match x {
            AssetInstance::Array4(a) => Ok(a),
            _ => Err(()),
        }
    }
}

impl TryFromSpecImpl<AssetInstance> for [u8; 4] {
    open spec fn obeys_try_from_spec() -> bool {
        true
    }

    open spec fn try_from_spec(x: AssetInstance) -> Result<[u8; 4], ()> {
        match x {
            AssetInstance::Array4(a) => Ok(a),
            _ => Err(()),
        }
    }
}

impl TryFrom<AssetInstance> for [u8; 8] {
    type Error = ();

    fn try_from(x: AssetInstance) -> Result<[u8; 8], ()> {
        match x {
            AssetInstance::Array8(a) => Ok(a),
            _ => Err(()),
        }
    }
}

impl TryFromSpecImpl<AssetInstance> for [u8; 8] {
    open spec fn obeys_try_from_spec() -> bool {
        true
    }

    open spec fn try_from_spec(x: AssetInstance) -> Result<[u8; 8], ()> {
        match x {
            AssetInstance::Array8(a) => Ok(a),
            _ => Err(()),
        }
    }
}

impl TryFrom<AssetInstance> for [u8; 16] {
    type Error = ();

    fn try_from(x: AssetInstance) -> Result<[u8; 16], ()> {
        match x {
            AssetInstance::Array16(a) => Ok(a),
            _ => Err(()),
        }
    }
}

impl TryFromSpecImpl<AssetInstance> for [u8; 16] {
    open spec fn obeys_try_from_spec() -> bool {
        true
    }

    open spec fn try_from_spec(x: AssetInstance) -> Result<[u8; 16], ()> {
        match x {
            AssetInstance::Array16(a) => Ok(a),
            _ => Err(()),
        }
    }
}

impl TryFrom<AssetInstance> for [u8; 32] {
    type Error = ();

    fn try_from(x: AssetInstance) -> Result<[u8; 32], ()> {
        match x {
            AssetInstance::Array32(a) => Ok(a),
            _ => Err(()),
        }
    }
}

impl TryFromSpecImpl<AssetInstance> for [u8; 32] {
    open spec fn obeys_try_from_spec() -> bool {
        true
    }

    open spec fn try_from_spec(x: AssetInstance) -> Result<[u8; 32], ()> {
        match x {
            AssetInstance::Array32(a) => Ok(a),
            _ => Err(()),
        }
    }
}

impl TryFrom<AssetInstance> for u8 {
    type Error = ();

    fn try_from(x: AssetInstance) -> Result<u8, ()> {
        match x {
            AssetInstance::Index(n) => if n <= u8::MAX as u128 {
                Ok(n as u8)
            } else {
                Err(())
            },
            _ => Err(()),
        }
    }
}

impl TryFromSpecImpl<AssetInstance> for u8 {
    open spec fn obeys_try_from_spec() -> bool {
        true
    }

    open spec fn try_from_spec(x: AssetInstance) -> Result<u8, ()> {
        match x {
            AssetInstance::Index(n) => if n <= u8::MAX {
                Ok(n as u8)
            } else {
                Err(())
            },
            _ => Err(()),
        }
    }
}

impl TryFrom<AssetInstance> for u16 {
    type Error = ();

    fn try_from(x: AssetInstance) -> Result<u16, ()> {
        match x {
            AssetInstance::Index(n) => if n <= u16::MAX as u128 {
                Ok(n as u16)
            } else {
                Err(())
            },
            _ => Err(()),
        }
    }
}

impl TryFromSpecImpl<AssetInstance> for u16 {
    open spec fn obeys_try_from_spec() -> bool {
        true
    }

    open spec fn try_from_spec(x: AssetInstance) -> Result<u16, ()> {
        match x {
            AssetInstance::Index(n) => if n <= u16::MAX {
                Ok(n as u16)
            } else {
                Err(())
            },
            _ => Err(()),
        }
    }
}

impl TryFrom<AssetInstance> for u32 {
    type Error = ();

    fn try_from(x: AssetInstance) -> Result<u32, ()> {
        match x {
            AssetInstance::Index(n) => if n <= u32::MAX as u128 {
                Ok(n as u32)
            } else {
                Err(())
            },
            _ => Err(()),
        }
    }
}

impl TryFromSpecImpl<AssetInstance> for u32 {
    open spec fn obeys_try_from_spec() -> bool {
        true
    }

    open spec fn try_from_spec(x: AssetInstance) -> Result<u32, ()> {
        match x {
            AssetInstance::Index(n) => if n <= u32::MAX {
                Ok(n as u32)
            } else {
                Err(())
            },
            _ => Err(()),
        }
    }
}

impl TryFrom<AssetInstance> for u64 {
    type Error = ();

    fn try_from(x: AssetInstance) -> Result<u64, ()> {
        match x {
            AssetInstance::Index(n) => if n <= u64::MAX as u128 {
                Ok(n as u64)
            } else {
                Err(())
            },
            _ => Err(()),
        }
    }
}

impl TryFromSpecImpl<AssetInstance> for u64 {
    open spec fn obeys_try_from_spec() -> bool {
        true
    }

    open spec fn try_from_spec(x: AssetInstance) -> Result<u64, ()> {
        match x {
            AssetInstance::Index(n) => if n <= u64::MAX {
                Ok(n as u64)
            } else {
                Err(())
            },
            _ => Err(()),
        }
    }
}

impl TryFrom<AssetInstance> for u128 {
    type Error = ();

    fn try_from(x: AssetInstance) -> Result<u128, ()> {
        match x {
            AssetInstance::Index(n) => Ok(n),
            _ => Err(()),
        }
    }
}

impl TryFromSpecImpl<AssetInstance> for u128 {
    open spec fn obeys_try_from_spec() -> bool {
        true
    }

    open spec fn try_from_spec(x: AssetInstance) -> Result<u128, ()> {
        match x {
            AssetInstance::Index(n) => Ok(n),
            _ => Err(()),
        }
    }
}

impl From<AssetInstance> for Fungibility {
    fn from(instance: AssetInstance) -> Self {
        Fungibility::NonFungible(instance)
    }
}

impl FromSpecImpl<AssetInstance> for Fungibility {
    open spec fn obeys_from_spec() -> bool {
        true
    }

    open spec fn from_spec(instance: AssetInstance) -> Self {
        Fungibility::NonFungible(instance)
    }
}

impl From<MultiLocation> for AssetId {
    fn from(x: MultiLocation) -> Self {
        AssetId::Concrete(x)
    }
}

impl FromSpecImpl<MultiLocation> for AssetId {
    open spec fn obeys_from_spec() -> bool {
        true
    }

    open spec fn from_spec(x: MultiLocation) -> Self {
        AssetId::Concrete(x)
    }
}

impl From<[u8; 32]> for AssetId {
    fn from(x: [u8; 32]) -> Self {
        AssetId::Abstract(x)
    }
}

impl FromSpecImpl<[u8; 32]> for AssetId {
    open spec fn obeys_from_spec() -> bool {
        true
    }

    open spec fn from_spec(x: [u8; 32]) -> Self {
        AssetId::Abstract(x)
    }
}

impl From<(AssetId, Fungibility)> for MultiAsset {
    fn from(x: (AssetId, Fungibility)) -> Self {
        let (id, fun) = x;
        MultiAsset { id, fun }
    }
}

impl FromSpecImpl<(AssetId, Fungibility)> for MultiAsset {
    open spec fn obeys_from_spec() -> bool {
        true
    }

    open spec fn from_spec(x: (AssetId, Fungibility)) -> Self {
        MultiAsset { id: x.0, fun: x.1 }
    }
}

impl From<(AssetId, WildFungibility)> for WildMultiAsset {
    fn from(x: (AssetId, WildFungibility)) -> Self {
        let (id, fun) = x;
        WildMultiAsset::AllOf { id, fun }
    }
}

impl FromSpecImpl<(AssetId, WildFungibility)> for WildMultiAsset {
    open spec fn obeys_from_spec() -> bool {
        true
    }

    open spec fn from_spec(x: (AssetId, WildFungibility)) -> Self {
        WildMultiAsset::AllOf { id: x.0, fun: x.1 }
    }
}

/// The canonical form of a list of assets; see `MultiAssets::from_assets`.
impl From<Vec<MultiAsset>> for MultiAssets {
    fn from(assets: Vec<MultiAsset>) -> (r: Self)
        ensures
            r@ == canonical_form(models(assets@)),
    {
        MultiAssets::from_assets(assets)
    }
}

impl FromSpecImpl<Vec<MultiAsset>> for MultiAssets {
    open spec fn obeys_from_spec() -> bool {
        false
    }

    open spec fn from_spec(assets: Vec<MultiAsset>) -> Self {
        arbitrary()
    }
}

/// The list of the one asset `a`.
impl From<MultiAsset> for MultiAssets {
    fn from(a: MultiAsset) -> (r: Self)
        ensures
            r@ == seq![a@],
    {
        let r = MultiAssets::from_sorted_and_deduplicated_skip_checks(vec![a]);
        proof {
            assert(r@ =~= seq![a@]);
        }
        r
    }
}

impl FromSpecImpl<MultiAsset> for MultiAssets {
    open spec fn obeys_from_spec() -> bool {
        false
    }

    open spec fn from_spec(a: MultiAsset) -> Self {
        arbitrary()
    }
}

impl From<WildMultiAsset> for MultiAssetFilter {
    fn from(x: WildMultiAsset) -> Self {
        MultiAssetFilter::Wild(x)
    }
}

impl FromSpecImpl<WildMultiAsset> for MultiAssetFilter {
    open spec fn obeys_from_spec() -> bool {
        true
    }

    open spec fn from_spec(x: WildMultiAsset) -> Self {
        MultiAssetFilter::Wild(x)
    }
}

impl From<MultiAssets> for MultiAssetFilter {
    fn from(x: MultiAssets) -> Self {
        MultiAssetFilter::Definite(x)
    }
}

impl FromSpecImpl<MultiAssets> for MultiAssetFilter {
    open spec fn obeys_from_spec() -> bool {
        true
    }

    open spec fn from_spec(x: MultiAssets) -> Self {
        MultiAssetFilter::Definite(x)
    }
}

/// The filter for exactly the one asset `x`.
impl From<MultiAsset> for MultiAssetFilter {
    fn from(x: MultiAsset) -> (r: Self)
        ensures
            r@ == FilterModel::Definite(seq![x@]),
    {
        MultiAssetFilter::Definite(MultiAssets::from(x))
    }
}

impl FromSpecImpl<MultiAsset> for MultiAssetFilter {
    open spec fn obeys_from_spec() -> bool {
        false
    }

    open spec fn from_spec(x: MultiAsset) -> Self {
        arbitrary()
    }
}

/// The filter for the canonical form of `x`.
impl From<Vec<MultiAsset>> for MultiAssetFilter {
    fn from(x: Vec<MultiAsset>) -> (r: Self)
        ensures
            r@ == FilterModel::Definite(canonical_form(models(x@))),
    {
        MultiAssetFilter::Definite(MultiAssets::from_assets(x))
    }
}

impl FromSpecImpl<Vec<MultiAsset>> for MultiAssetFilter {
    open spec fn obeys_from_spec() -> bool {
        false
    }

    open spec fn from_spec(x: Vec<MultiAsset>) -> Self {
        arbitrary()
    }
}

} // verus!

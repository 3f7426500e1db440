use std::cmp::Ordering;

use xcm_assets::asset::{AssetId, AssetInstance, Fungibility, MultiAsset, WildFungibility};
use xcm_assets::asset_list::{saturating_add, DecodeError, MultiAssets, MAX_ITEMS_IN_MULTIASSETS};
use xcm_assets::location::{invert_target, BodyId, BodyPart, Junction, MultiLocation, NetworkId};
use xcm_assets::wild::{MultiAssetFilter, WildMultiAsset};

fn loc(parents: u8, interior: Vec<Junction>) -> MultiLocation {
    MultiLocation::new(parents, interior)
}

fn id(n: u128) -> AssetId {
    AssetId::from(loc(0, vec![Junction::GeneralIndex(n)]))
}

fn fungible(id: AssetId, amount: u128) -> MultiAsset {
    MultiAsset::from((id, Fungibility::Fungible(amount)))
}

fn nft(id: AssetId, index: u128) -> MultiAsset {
    MultiAsset::from((id, Fungibility::NonFungible(AssetInstance::Index(index))))
}

#[test]
fn saturating_merge_adds_amounts() {
    let list = MultiAssets::from(vec![fungible(id(7), 100), fungible(id(7), 10)]);
    assert_eq!(list.into_inner(), vec![fungible(id(7), 110)]);
}

#[test]
fn saturating_merge_clamps_at_maximum() {
    let list = MultiAssets::from(vec![fungible(id(7), u128::MAX), fungible(id(7), 5)]);
    assert_eq!(list.into_inner(), vec![fungible(id(7), u128::MAX)]);
    assert_eq!(saturating_add(u128::MAX, 5), u128::MAX);
    assert_eq!(saturating_add(2, 3), 5);
}

#[test]
fn identical_non_fungibles_collapse() {
    let list = MultiAssets::from(vec![nft(id(3), 9), nft(id(3), 9)]);
    assert_eq!(list.into_inner(), vec![nft(id(3), 9)]);
}

#[test]
fn distinct_non_fungibles_kept_in_instance_order() {
    let list = MultiAssets::from(vec![nft(id(3), 9), nft(id(3), 4)]);
    assert_eq!(list.into_inner(), vec![nft(id(3), 4), nft(id(3), 9)]);
}

#[test]
fn canonical_form_puts_fungibles_first() {
    let list = MultiAssets::from(vec![
        nft(id(1), 1),
        fungible(id(9), 5),
        fungible(id(2), 5),
        fungible(id(9), 6),
    ]);
    assert_eq!(
        list.into_inner(),
        vec![fungible(id(2), 5), fungible(id(9), 11), nft(id(1), 1)]
    );
}

#[test]
fn canonical_form_is_idempotent() {
    let input = vec![fungible(id(4), 1), nft(id(4), 2), fungible(id(1), 3), fungible(id(4), 2)];
    let once = MultiAssets::from(input);
    let twice = MultiAssets::from(once.inner().clone());
    assert_eq!(once, twice);
}

#[test]
fn canonical_form_passes_strict_check() {
    let input = vec![fungible(id(4), 1), nft(id(5), 2), fungible(id(1), 3), nft(id(5), 1)];
    let canonical = MultiAssets::from(input);
    let checked = MultiAssets::from_sorted_and_deduplicated(canonical.inner().clone());
    assert_eq!(checked, Ok(canonical));
}

#[test]
fn strict_check_rejects_fungible_class_above_non_fungible_class() {
    let canonical = MultiAssets::from(vec![nft(id(1), 1), fungible(id(9), 5)]);
    assert_eq!(canonical.inner().clone(), vec![fungible(id(9), 5), nft(id(1), 1)]);
    assert!(MultiAssets::from_sorted_and_deduplicated(canonical.into_inner()).is_err());
}

#[test]
fn bounded_decode_refuses_twenty_one_distinct_entries() {
    let many: Vec<MultiAsset> =
        (0..(MAX_ITEMS_IN_MULTIASSETS as u128 + 1)).map(|i| fungible(id(i), 1)).collect();
    assert!(MultiAssets::from_sorted_and_deduplicated(many.clone()).is_ok());
    assert_eq!(MultiAssets::from_decoded(many), Err(DecodeError::TooManyItems));
}

#[test]
fn bounded_decode_accepts_canonicalized_duplicates() {
    let mut many: Vec<MultiAsset> = (0..20u128).map(|i| fungible(id(i), 1)).collect();
    many.push(fungible(id(0), 1));
    many.push(fungible(id(19), 1));
    let canonical = MultiAssets::from(many);
    assert_eq!(canonical.len(), MAX_ITEMS_IN_MULTIASSETS);
    assert!(MultiAssets::from_decoded(canonical.into_inner()).is_ok());
}

#[test]
fn decode_refuses_zero_amount_and_disorder() {
    assert_eq!(
        MultiAssets::from_decoded(vec![fungible(id(1), 0)]),
        Err(DecodeError::ZeroAmount)
    );
    assert_eq!(
        MultiAssets::from_decoded(vec![fungible(id(2), 1), fungible(id(1), 1)]),
        Err(DecodeError::OutOfOrder)
    );
    assert_eq!(Fungibility::Fungible(0).checked(), Err(DecodeError::ZeroAmount));
    assert_eq!(Fungibility::Fungible(3).checked(), Ok(Fungibility::Fungible(3)));
}

#[test]
fn asset_containment() {
    assert!(fungible(id(1), 10).contains(&fungible(id(1), 5)));
    assert!(!fungible(id(1), 5).contains(&fungible(id(1), 10)));
    assert!(!fungible(id(1), 10).contains(&fungible(id(2), 5)));
    assert!(!fungible(id(1), 5).contains(&fungible(id(2), 10)));
    assert!(nft(id(1), 3).contains(&nft(id(1), 3)));
    assert!(!nft(id(1), 3).contains(&nft(id(1), 4)));
    assert!(!fungible(id(1), 3).contains(&nft(id(1), 3)));
}

#[test]
fn list_containment() {
    let list = MultiAssets::from(vec![fungible(id(1), 10), nft(id(2), 3)]);
    assert!(list.contains(&fungible(id(1), 7)));
    assert!(list.contains(&nft(id(2), 3)));
    assert!(!list.contains(&fungible(id(1), 11)));
    assert!(!list.contains(&nft(id(2), 4)));
    assert!(!MultiAssets::new().contains(&fungible(id(1), 1)));
    assert!(MultiAssets::new().is_none());
}

#[test]
fn wildcard_edge_cases() {
    let any = fungible(id(5), 1);
    assert!(!WildMultiAsset::AllCounted(0).contains(&any));
    assert!(WildMultiAsset::AllCounted(5).contains(&any));
    assert!(WildMultiAsset::All.contains(&any));
    let all_of = id(5).into_wild(WildFungibility::Fungible);
    assert!(!all_of.contains(&nft(id(5), 1)));
    assert!(all_of.contains(&any));
    assert!(!all_of.contains(&fungible(id(6), 1)));
    let zero = WildMultiAsset::AllOfCounted { id: id(5), fun: WildFungibility::Fungible, count: 0 };
    assert!(!zero.contains(&any));
    assert!(!zero.matches(&any));
}

#[test]
fn wildcard_counts() {
    assert_eq!(WildMultiAsset::All.count(), None);
    assert_eq!(WildMultiAsset::AllCounted(3).count(), Some(3));
    assert_eq!(WildMultiAsset::AllCounted(3).limit(), Some(3));
    let all_of = WildMultiAsset::from((id(1), WildFungibility::NonFungible));
    assert_eq!(all_of.count(), None);
    let counted = all_of.counted(4);
    assert_eq!(
        counted,
        WildMultiAsset::AllOfCounted { id: id(1), fun: WildFungibility::NonFungible, count: 4 }
    );
    assert_eq!(counted.clone().counted(9).count(), Some(9));
    assert_eq!(WildMultiAsset::All.counted(2), WildMultiAsset::AllCounted(2));
}

#[test]
fn filter_matches_and_counts() {
    let definite = MultiAssetFilter::from(vec![fungible(id(1), 10), fungible(id(1), 5)]);
    assert!(definite.matches(&fungible(id(1), 15)));
    assert!(!definite.matches(&fungible(id(1), 16)));
    assert_eq!(definite.count(), Some(1));
    assert_eq!(definite.limit(), None);
    let wild = MultiAssetFilter::from(WildMultiAsset::AllCounted(7));
    assert!(wild.matches(&nft(id(3), 3)));
    assert_eq!(wild.count(), Some(7));
    assert_eq!(wild.limit(), Some(7));
    let single = MultiAssetFilter::from(nft(id(2), 2));
    assert_eq!(single.count(), Some(1));
}

#[test]
fn reanchor_keeps_list_sorted_when_order_changes() {
    // Seen from the parent, `Here` becomes parachain 2000 and sorts after the
    // sibling parachain 1000, although it sorted first before.
    let context = vec![Junction::Parachain(2000)];
    let dest = loc(1, vec![]);
    let here = AssetId::from(loc(0, vec![]));
    let sibling = AssetId::from(loc(1, vec![Junction::Parachain(1000)]));
    let mut list = MultiAssets::from(vec![fungible(sibling, 1), fungible(here, 2)]);
    assert_eq!(list.get(0), Some(&fungible(AssetId::from(loc(0, vec![])), 2)));
    assert!(list.reanchor(&dest, &context).is_ok());
    assert_eq!(
        list.inner().clone(),
        vec![
            fungible(AssetId::from(loc(0, vec![Junction::Parachain(1000)])), 1),
            fungible(AssetId::from(loc(0, vec![Junction::Parachain(2000)])), 2),
        ]
    );
    assert!(MultiAssets::from_decoded(list.into_inner()).is_ok());
}

#[test]
fn reanchor_failure_leaves_list_unchanged() {
    // Nine junctions cannot be written down.
    let deep = loc(0, vec![Junction::OnlyChild; 8]);
    let list_items = vec![fungible(id(1), 1), fungible(AssetId::from(deep), 1)];
    let mut list = MultiAssets::from(list_items.clone());
    let before = list.inner().clone();
    let result = list.reanchor(&loc(1, vec![]), &vec![Junction::Parachain(2000)]);
    assert_eq!(result, Err(()));
    assert_eq!(list.inner().clone(), before);
}

#[test]
fn abstract_ids_are_not_reanchored() {
    let mut a = fungible(AssetId::from([7u8; 32]), 1);
    assert!(a.prepend_with(&loc(0, vec![Junction::Parachain(5)])).is_ok());
    assert!(a.reanchor(&loc(1, vec![]), &vec![Junction::Parachain(5)]).is_ok());
    assert_eq!(a, fungible(AssetId::from([7u8; 32]), 1));
}

#[test]
fn location_prepend_and_invert() {
    let mut l = loc(2, vec![Junction::PalletInstance(1)]);
    assert!(l.prepend_with(&loc(1, vec![Junction::Parachain(7)])).is_ok());
    assert_eq!(l, loc(2, vec![Junction::PalletInstance(1)]));
    let mut too_deep = loc(0, vec![Junction::OnlyChild; 8]);
    assert_eq!(too_deep.prepend_with(&loc(0, vec![Junction::Parachain(1)])), Err(()));
    assert_eq!(too_deep, loc(0, vec![Junction::OnlyChild; 8]));
    let inverted = invert_target(&vec![Junction::Parachain(3)], &loc(2, vec![Junction::Parachain(9)]));
    assert_eq!(inverted, Ok(loc(1, vec![Junction::OnlyChild, Junction::Parachain(3)])));
    assert_eq!(invert_target(&vec![], &loc(9, vec![])), Err(()));
}

#[test]
fn push_merges_or_inserts_sorted() {
    let mut list = MultiAssets::new();
    list.push(fungible(id(5), 1));
    list.push(fungible(id(2), 1));
    list.push(fungible(id(5), u128::MAX));
    list.push(nft(id(1), 1));
    list.push(nft(id(1), 1));
    assert_eq!(
        list.into_inner(),
        vec![fungible(id(2), 1), fungible(id(5), u128::MAX), nft(id(1), 1)]
    );
}

#[test]
fn asset_predicates() {
    let a = fungible(id(1), 1);
    assert!(a.is_fungible(None));
    assert!(a.is_fungible(Some(id(1))));
    assert!(!a.is_fungible(Some(id(2))));
    assert!(!a.is_non_fungible(None));
    let n = nft(id(1), 1);
    assert!(n.is_non_fungible(Some(id(1))));
    assert!(Fungibility::Fungible(1).is_kind(WildFungibility::Fungible));
    assert!(!Fungibility::Fungible(1).is_kind(WildFungibility::NonFungible));
    assert_eq!(id(3).into_multiasset(Fungibility::Fungible(4)), fungible(id(3), 4));
}

#[test]
fn instance_conversions() {
    assert_eq!(AssetInstance::from(7u8), AssetInstance::Index(7));
    assert_eq!(AssetInstance::from(7u64), AssetInstance::Index(7));
    assert_eq!(u8::try_from(AssetInstance::Index(255)), Ok(255u8));
    assert_eq!(u8::try_from(AssetInstance::Index(256)), Err(()));
    assert_eq!(u16::try_from(AssetInstance::Index(65_536)), Err(()));
    assert_eq!(u32::try_from(AssetInstance::Index(70_000)), Ok(70_000u32));
    assert_eq!(u64::try_from(AssetInstance::Undefined), Err(()));
    assert_eq!(u128::try_from(AssetInstance::Index(u128::MAX)), Ok(u128::MAX));
    assert_eq!(<[u8; 4]>::try_from(AssetInstance::Array4(*b"abcd")), Ok(*b"abcd"));
    assert_eq!(<[u8; 8]>::try_from(AssetInstance::Array4(*b"abcd")), Err(()));
    assert_eq!(<()>::try_from(AssetInstance::Undefined), Ok(()));
    assert_eq!(<()>::try_from(AssetInstance::Index(0)), Err(()));
}

#[test]
fn prepend_failure_leaves_list_unchanged() {
    let deep = loc(0, vec![Junction::OnlyChild; 8]);
    let mut list = MultiAssets::from(vec![fungible(id(1), 1), fungible(AssetId::from(deep), 1)]);
    let before = list.inner().clone();
    assert_eq!(list.prepend_with(&loc(0, vec![Junction::Parachain(1)])), Err(()));
    assert_eq!(list.inner().clone(), before);
}

#[test]
fn canonical_compare() {
    assert_eq!(fungible(id(9), 1).cmp(&nft(id(1), 1)), Ordering::Less);
    assert_eq!(nft(id(1), 1).cmp(&fungible(id(9), 1)), Ordering::Greater);
    assert_eq!(fungible(id(1), 2).cmp(&fungible(id(1), 2)), Ordering::Equal);
    assert_eq!(fungible(id(1), 2).cmp(&fungible(id(1), 3)), Ordering::Less);
    assert_eq!(fungible(id(2), 1).cmp(&fungible(id(1), 3)), Ordering::Greater);
}

#[test]
fn junctions_order_by_variant_then_fields() {
    let anonymous = AssetId::from(loc(0, vec![Junction::AccountId32 { network: None, id: [9; 32] }]));
    let on_kusama = AssetId::from(loc(
        0,
        vec![Junction::AccountId32 { network: Some(NetworkId::Kusama), id: [0; 32] }],
    ));
    let list = MultiAssets::from(vec![fungible(on_kusama, 1), fungible(anonymous, 1)]);
    let expected_first =
        fungible(AssetId::from(loc(0, vec![Junction::AccountId32 { network: None, id: [9; 32] }])), 1);
    assert_eq!(list.get(0), Some(&expected_first));
    let plurality = Junction::Plurality { id: BodyId::Index(3), part: BodyPart::Voice };
    let consensus = Junction::GlobalConsensus(NetworkId::Polkadot);
    let sorted = MultiAssets::from(vec![
        fungible(AssetId::from(loc(0, vec![consensus])), 1),
        fungible(AssetId::from(loc(0, vec![plurality])), 1),
    ]);
    assert_eq!(sorted.get(0), Some(&fungible(AssetId::from(loc(0, vec![plurality])), 1)));
}

#[test]
fn reanchor_to_sibling_simplifies() {
    let context = vec![Junction::Parachain(1000)];
    let sibling = loc(1, vec![Junction::Parachain(2000)]);
    let mut theirs = loc(1, vec![Junction::Parachain(2000), Junction::PalletInstance(5)]);
    assert!(theirs.reanchor(&sibling, &context).is_ok());
    assert_eq!(theirs, loc(0, vec![Junction::PalletInstance(5)]));
    let mut ours = loc(0, vec![Junction::PalletInstance(5)]);
    assert!(ours.reanchor(&sibling, &context).is_ok());
    assert_eq!(ours, loc(1, vec![Junction::Parachain(1000), Junction::PalletInstance(5)]));
}

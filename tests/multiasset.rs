use xcm_assets::asset::{AssetId, AssetInstance, Fungibility, MultiAsset};
use xcm_assets::asset_list::MultiAssets;
use xcm_assets::asset_list::MAX_ITEMS_IN_MULTIASSETS;
use xcm_assets::location::{Junction, MultiLocation};

fn here() -> MultiLocation {
    MultiLocation::here()
}

fn parent() -> MultiLocation {
    MultiLocation::parent()
}

fn fungible(id: AssetId, amount: u128) -> MultiAsset {
    MultiAsset::from((id, Fungibility::Fungible(amount)))
}

fn nft(id: AssetId, instance: AssetInstance) -> MultiAsset {
    MultiAsset::from((id, Fungibility::from(instance)))
}

fn concrete(l: MultiLocation) -> AssetId {
    AssetId::from(l)
}

fn loc(parents: u8, interior: Vec<Junction>) -> MultiLocation {
    MultiLocation::new(parents, interior)
}

fn encode_then_decode_ok(assets: &MultiAssets) -> bool {
    MultiAssets::from_decoded(assets.inner().clone()).is_ok()
}

#[test]
fn conversion_works() {
    let _: MultiAssets = fungible(concrete(here()), 1u128).into();
}

#[test]
fn from_sorted_and_deduplicated_works() {
    let empty = vec![];
    let r = MultiAssets::from_sorted_and_deduplicated(empty);
    assert_eq!(r, Ok(MultiAssets::new()));

    let dup_fun = vec![fungible(concrete(here()), 100), fungible(concrete(here()), 10)];
    let r = MultiAssets::from_sorted_and_deduplicated(dup_fun);
    assert!(r.is_err());

    let dup_nft = vec![
        nft(concrete(here()), AssetInstance::from(*b"notgood!")),
        nft(concrete(here()), AssetInstance::from(*b"notgood!")),
    ];
    let r = MultiAssets::from_sorted_and_deduplicated(dup_nft);
    assert!(r.is_err());

    let good_fun = vec![fungible(concrete(here()), 10), fungible(concrete(parent()), 10)];
    let r = MultiAssets::from_sorted_and_deduplicated(good_fun.clone());
    assert_eq!(r, Ok(MultiAssets::from_sorted_and_deduplicated_skip_checks(good_fun)));

    let bad_fun = vec![fungible(concrete(parent()), 10), fungible(concrete(here()), 10)];
    let r = MultiAssets::from_sorted_and_deduplicated(bad_fun);
    assert!(r.is_err());

    let good_abstract_fun =
        vec![fungible(concrete(here()), 100), fungible(AssetId::from([0u8; 32]), 10)];
    let r = MultiAssets::from_sorted_and_deduplicated(good_abstract_fun.clone());
    assert_eq!(r, Ok(MultiAssets::from_sorted_and_deduplicated_skip_checks(good_abstract_fun)));

    let bad_abstract_fun =
        vec![fungible(AssetId::from([0u8; 32]), 10), fungible(concrete(here()), 10)];
    let r = MultiAssets::from_sorted_and_deduplicated(bad_abstract_fun);
    assert!(r.is_err());

    let good_nft = vec![
        nft(concrete(here()), AssetInstance::from(())),
        nft(concrete(here()), AssetInstance::from(*b"good")),
    ];
    let r = MultiAssets::from_sorted_and_deduplicated(good_nft.clone());
    assert_eq!(r, Ok(MultiAssets::from_sorted_and_deduplicated_skip_checks(good_nft)));

    let bad_nft = vec![
        nft(concrete(here()), AssetInstance::from(*b"bad!")),
        nft(concrete(here()), AssetInstance::from(())),
    ];
    let r = MultiAssets::from_sorted_and_deduplicated(bad_nft);
    assert!(r.is_err());

    let good_abstract_nft = vec![
        nft(concrete(here()), AssetInstance::from(())),
        nft(AssetId::from([0u8; 32]), AssetInstance::from(())),
    ];
    let r = MultiAssets::from_sorted_and_deduplicated(good_abstract_nft.clone());
    assert_eq!(r, Ok(MultiAssets::from_sorted_and_deduplicated_skip_checks(good_abstract_nft)));

    let bad_abstract_nft = vec![
        nft(AssetId::from([0u8; 32]), AssetInstance::from(())),
        nft(concrete(here()), AssetInstance::from(())),
    ];
    let r = MultiAssets::from_sorted_and_deduplicated(bad_abstract_nft);
    assert!(r.is_err());

    let mixed_good = vec![
        fungible(concrete(here()), 10),
        nft(concrete(here()), AssetInstance::from(*b"good")),
    ];
    let r = MultiAssets::from_sorted_and_deduplicated(mixed_good.clone());
    assert_eq!(r, Ok(MultiAssets::from_sorted_and_deduplicated_skip_checks(mixed_good)));

    let mixed_bad = vec![
        nft(concrete(here()), AssetInstance::from(*b"bad!")),
        fungible(concrete(here()), 10),
    ];
    let r = MultiAssets::from_sorted_and_deduplicated(mixed_bad);
    assert!(r.is_err());
}

#[test]
fn reanchor_preserves_sorting() {
    let reanchor_context = vec![Junction::Parachain(2000)];
    let dest = loc(1, vec![]);

    let asset_1 = fungible(
        concrete(loc(0, vec![Junction::PalletInstance(50), Junction::GeneralIndex(1)])),
        10,
    );
    let mut asset_1_reanchored = asset_1.clone();
    assert!(asset_1_reanchored.reanchor(&dest, &reanchor_context).is_ok());
    assert_eq!(
        asset_1_reanchored,
        fungible(
            concrete(loc(
                0,
                vec![
                    Junction::Parachain(2000),
                    Junction::PalletInstance(50),
                    Junction::GeneralIndex(1)
                ]
            )),
            10
        )
    );

    let asset_2 = fungible(concrete(loc(1, vec![])), 10);
    let mut asset_2_reanchored = asset_2.clone();
    assert!(asset_2_reanchored.reanchor(&dest, &reanchor_context).is_ok());
    assert_eq!(asset_2_reanchored, fungible(concrete(loc(0, vec![])), 10));

    let asset_3 = fungible(concrete(loc(1, vec![Junction::Parachain(1000)])), 10);
    let mut asset_3_reanchored = asset_3.clone();
    assert!(asset_3_reanchored.reanchor(&dest, &reanchor_context).is_ok());
    assert_eq!(asset_3_reanchored, fungible(concrete(loc(0, vec![Junction::Parachain(1000)])), 10));

    let mut assets: MultiAssets =
        vec![asset_1.clone(), asset_2.clone(), asset_3.clone()].into();
    assert_eq!(
        assets.clone(),
        MultiAssets::from(vec![asset_1.clone(), asset_2.clone(), asset_3.clone()])
    );

    // decoding respects limits and sorting
    assert!(encode_then_decode_ok(&assets));

    assert!(assets.reanchor(&dest, &reanchor_context).is_ok());
    assert_eq!(
        assets.inner().clone(),
        vec![asset_2_reanchored, asset_3_reanchored, asset_1_reanchored]
    );

    // decoding respects limits and sorting
    assert!(encode_then_decode_ok(&assets));
}

#[test]
fn prepend_preserves_sorting() {
    let prefix = loc(0, vec![Junction::Parachain(1000)]);

    let asset_1 = fungible(
        concrete(loc(0, vec![Junction::PalletInstance(50), Junction::GeneralIndex(1)])),
        10,
    );
    let mut asset_1_prepended = asset_1.clone();
    assert!(asset_1_prepended.prepend_with(&prefix).is_ok());
    // changes interior X2->X3
    assert_eq!(
        asset_1_prepended,
        fungible(
            concrete(loc(
                0,
                vec![
                    Junction::Parachain(1000),
                    Junction::PalletInstance(50),
                    Junction::GeneralIndex(1)
                ]
            )),
            10
        )
    );

    let asset_2 = fungible(
        concrete(loc(1, vec![Junction::PalletInstance(50), Junction::GeneralIndex(1)])),
        10,
    );
    let mut asset_2_prepended = asset_2.clone();
    assert!(asset_2_prepended.prepend_with(&prefix).is_ok());
    // changes parent
    assert_eq!(
        asset_2_prepended,
        fungible(
            concrete(loc(0, vec![Junction::PalletInstance(50), Junction::GeneralIndex(1)])),
            10
        )
    );

    let asset_3 = fungible(
        concrete(loc(2, vec![Junction::PalletInstance(50), Junction::GeneralIndex(1)])),
        10,
    );
    let mut asset_3_prepended = asset_3.clone();
    assert!(asset_3_prepended.prepend_with(&prefix).is_ok());
    // changes parent
    assert_eq!(
        asset_3_prepended,
        fungible(
            concrete(loc(1, vec![Junction::PalletInstance(50), Junction::GeneralIndex(1)])),
            10
        )
    );

    // `From` impl does sorting.
    let mut assets: MultiAssets = vec![asset_1, asset_2, asset_3].into();
    // decoding respects limits and sorting
    assert!(encode_then_decode_ok(&assets));

    // let's do `prepend_with`
    assert!(assets.prepend_with(&prefix).is_ok());
    assert_eq!(
        assets.inner().clone(),
        vec![asset_2_prepended, asset_1_prepended, asset_3_prepended]
    );

    // decoding respects limits and sorting
    assert!(encode_then_decode_ok(&assets));
}

#[test]
fn decoding_respects_limit() {
    // Having lots of one asset will work since they are deduplicated
    let one = fungible(concrete(loc(0, vec![Junction::GeneralIndex(1)])), 1u128);
    let lots_of_one_asset: MultiAssets = vec![one; MAX_ITEMS_IN_MULTIASSETS + 1].into();
    assert!(encode_then_decode_ok(&lots_of_one_asset));

    // Fewer assets than the limit works
    let mut few_assets: MultiAssets = Vec::new().into();
    for i in 0..MAX_ITEMS_IN_MULTIASSETS {
        few_assets.push(fungible(concrete(loc(0, vec![Junction::GeneralIndex(i as u128)])), 1u128));
    }
    assert!(encode_then_decode_ok(&few_assets));

    // Having lots of different assets will not work
    let mut too_many_different_assets: MultiAssets = Vec::new().into();
    for i in 0..MAX_ITEMS_IN_MULTIASSETS + 1 {
        too_many_different_assets
            .push(fungible(concrete(loc(0, vec![Junction::GeneralIndex(i as u128)])), 1u128));
    }
    assert!(!encode_then_decode_ok(&too_many_different_assets));
}

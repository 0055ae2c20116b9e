use svg_server::alchemy::{ImageInfo, StoredImageInfo};
use svg_server::display::{displ_variant, query_category};
use svg_server::layer::StoredLayerId;
use svg_server::registry::{Registry, StoreContractInfo};
use svg_server::state::{Category, RollConfig, ServerState, Variant};

fn contract(address: &str, hash: &str) -> StoreContractInfo {
    StoreContractInfo {
        code_hash: hash.to_string(),
        address: address.as_bytes().to_vec(),
        creator: None,
    }
}
use svg_server::rng::Prng;
use svg_server::sampler::draw_variant;
use svg_server::metadata::{token_metadata, CommonMetadata};
#[test]
fn test_registry() {
    let mut contract_registry: Registry<StoreContractInfo> = Registry::new();

    let raw1 = contract("contract 1", "hash1");
    let raw2 = contract("contract 2", "hash2");
    let raw3 = contract("contract 3", "hash3");

    // test displaying an empty list
    let (_count, display) = contract_registry.display(0, 100);
    assert_eq!(display, Vec::new());
    // add raw1
    let _result = contract_registry.add(raw1.clone());
    // test displaying just one in the list
    let (count, display) = contract_registry.display(0, 100);
    assert_eq!(display, vec![raw1.clone()]);
    assert_eq!(count, 1);
    // test displaying after the only one in the list
    let (_count, display) = contract_registry.display(1, 100);
    assert_eq!(display, Vec::new());
    // add raw2
    let _result = contract_registry.add(raw2.clone());
    let (count, display) = contract_registry.display(0, 100);
    assert_eq!(display, vec![raw1.clone(), raw2.clone()]);
    assert_eq!(count, 2);
    assert_eq!(contract_registry.get_idx(raw1.address.as_slice()).unwrap(), 0u16);
    assert_eq!(contract_registry.get_idx(raw2.address.as_slice()).unwrap(), 1u16);
    assert!(contract_registry.get_idx(raw3.address.as_slice()).is_err());
    // test adding raw1 when it is already in the registry
    let result = contract_registry.add(raw1.clone());
    assert!(result.is_ok());
    assert_eq!(result.unwrap(), false);
    // list should not have changed
    let (count, display) = contract_registry.display(0, 100);
    assert_eq!(display, vec![raw1.clone(), raw2.clone()]);
    assert_eq!(count, 2);
    // test display with page_size 0
    let (_count, display) = contract_registry.display(0, 0);
    assert_eq!(display, Vec::new());
    // test display just the last item
    let (count, display) = contract_registry.display(1, 1);
    assert_eq!(display, vec![raw2.clone()]);
    assert_eq!(count, 2);
    // add raw3
    let _result = contract_registry.add(raw3.clone());
    let (count, display) = contract_registry.display(0, 100);
    assert_eq!(display, vec![raw1.clone(), raw2.clone(), raw3.clone()]);
    assert_eq!(count, 3);
    assert_eq!(contract_registry.get_idx(raw3.address.as_slice()).unwrap(), 2u16);
    // test valid get_at
    assert_eq!(*contract_registry.get_at(1u16).unwrap(), raw2.clone());
    // test bad index
    assert!(contract_registry.get_at(10u16).is_err());
    // test valid get_at
    assert_eq!(*contract_registry.get_at(2u16).unwrap(), raw3.clone());
    // test bad index
    assert!(contract_registry.get_at(3u16).is_err());
    // display the middle
    let (_count, display) = contract_registry.display(1, 1);
    assert_eq!(display, vec![raw2.clone()]);
}

#[test]
fn seed_derivation_is_stable() {
    let a = svg_server::rng::new_prng_seed(b"entropy");
    let b = svg_server::rng::new_prng_seed(b"entropy");
    assert_eq!(a.len(), 32);
    assert_eq!(a, b);
    assert_ne!(a, svg_server::rng::new_prng_seed(b"other"));
}

#[test]
fn draws_are_deterministic_and_in_range() {
    let mut a = Prng::new(b"seed", b"entropy");
    let mut b = Prng::new(b"seed", b"entropy");
    let weights: Vec<u16> = vec![1, 1, 1];
    for _ in 0..32 {
        let da = draw_variant(&mut a, weights.as_slice());
        let db = draw_variant(&mut b, weights.as_slice());
        assert_eq!(da, db, "one seed, one stream, one sequence of picks");
        assert!((da as usize) < weights.len());
    }
    // a zero-weight entry can never win
    let mut c = Prng::new(b"seed", b"entropy");
    let skewed: Vec<u16> = vec![0, 5];
    for _ in 0..16 {
        assert_eq!(draw_variant(&mut c, skewed.as_slice()), 1);
    }
    // different entropy moves the stream
    let mut d = Prng::new(b"seed", b"different");
    let mut any_differ = false;
    let mut e = Prng::new(b"seed", b"entropy");
    for _ in 0..16 {
        if d.next_u64() != e.next_u64() {
            any_differ = true;
        }
    }
    assert!(any_differ);
}

#[test]
fn token_metadata_assembles_svg_and_attributes() {
    let state = ServerState {
        categories: vec![
            Category {
                name: "Background".to_string(),
                forced_cyclops: None,
                forced_jawless: None,
                normal_weights: vec![1],
                jawless_weights: None,
                cyclops_weights: None,
            },
            Category {
                name: "Crown".to_string(),
                forced_cyclops: None,
                forced_jawless: None,
                normal_weights: vec![1, 1],
                jawless_weights: None,
                cyclops_weights: None,
            },
        ],
        variants: vec![
            vec![Variant {
                name: "Sky".to_string(),
                display: "Blue Sky".to_string(),
                svg: Some("<rect fill=\"blue\"/>".to_string()),
            }],
            vec![
                Variant {
                    name: "W".to_string(),
                    display: "Wreath".to_string(),
                    svg: Some("<circle/>".to_string()),
                },
                Variant { name: "Z".to_string(), display: "Zenith".to_string(), svg: None },
            ],
        ],
        roll: RollConfig { cat_cnt: 2, skip: Vec::new(), jaw_weights: vec![1, 1] },
        depends: Vec::new(),
        hiders: Vec::new(),
        gene_ledger: Vec::new(),
    };
    let common = CommonMetadata { public: None, private: None };
    // one revealed slot, one undisclosed slot
    let image: Vec<u8> = vec![0, 255];
    let meta = token_metadata(&state, &common, &image).unwrap();
    let public = meta.public_metadata.unwrap();
    let xten = public.extension.unwrap();
    assert_eq!(
        xten.image_data.unwrap(),
        "<svg xmlns=\"http://www.w3.org/2000/svg\" viewBox=\"0 -0.5 24 24\" shape-rendering=\"crispEdges\"><rect fill=\"blue\"/></svg>"
    );
    let attrs = xten.attributes.unwrap();
    assert_eq!(attrs.len(), 3);
    assert_eq!(attrs[0].trait_type.as_deref(), Some("Background"));
    assert_eq!(attrs[0].value, "Blue Sky");
    assert_eq!(attrs[1].trait_type.as_deref(), Some("Crown"));
    assert_eq!(attrs[1].value, "???");
    assert_eq!(attrs[2].trait_type.as_deref(), Some("Hidden Traits"));
    assert_eq!(attrs[2].value, "1");
}

#[test]
fn display_surface() {
    let state = ServerState {
        categories: vec![Category {
            name: "Crown".to_string(),
            forced_cyclops: Some(1),
            forced_jawless: None,
            normal_weights: vec![3, 4],
            jawless_weights: None,
            cyclops_weights: None,
        }],
        variants: vec![vec![
            Variant {
                name: "W".to_string(),
                display: "Wreath".to_string(),
                svg: Some("<circle/>".to_string()),
            },
            Variant { name: "Z".to_string(), display: "Zenith".to_string(), svg: None },
        ]],
        roll: RollConfig { cat_cnt: 1, skip: Vec::new(), jaw_weights: vec![1, 1] },
        depends: Vec::new(),
        hiders: Vec::new(),
        gene_ledger: Vec::new(),
    };
    let v = displ_variant(&state, &StoredLayerId { category: 0, variant: 0 }, false).unwrap();
    assert_eq!(v.index, 0);
    assert_eq!(v.variant_info.name, "W");
    assert_eq!(v.variant_info.display_name, "Wreath");
    assert_eq!(v.variant_info.svg, None, "payloads stay hidden unless asked for");
    assert_eq!(v.variant_info.normal_weight, 3);
    let v2 = displ_variant(&state, &StoredLayerId { category: 0, variant: 0 }, true).unwrap();
    assert_eq!(v2.variant_info.svg.as_deref(), Some("<circle/>"));
    assert!(displ_variant(&state, &StoredLayerId { category: 0, variant: 9 }, false).is_err());
    let page = query_category(&state, &None, None, None, None, None).unwrap();
    assert_eq!(page.category_count, 1);
    assert_eq!(page.index, 0);
    assert_eq!(page.name, "Crown");
    assert_eq!(page.forced_cyclops.as_deref(), Some("Z"));
    assert_eq!(page.variant_count, 2);
    assert_eq!(page.variants.len(), 2);
    assert_eq!(page.variants[1].index, 1);
}

#[test]
fn image_info_round_trip() {
    let mut servers: Registry<StoreContractInfo> = Registry::new();
    servers
        .add(StoreContractInfo {
            code_hash: "hash-default".to_string(),
            address: b"server-default".to_vec(),
            creator: None,
        })
        .unwrap();
    servers
        .add(StoreContractInfo {
            code_hash: "hash-alt".to_string(),
            address: b"server-alt".to_vec(),
            creator: None,
        })
        .unwrap();
    let img = ImageInfo {
        current: vec![0, 255],
        previous: vec![0, 255],
        natural: vec![0, 1],
        svg_server: Some("server-alt".to_string()),
    };
    let stored = img.into_stored(&servers).unwrap();
    assert_eq!(stored.svg_server, Some(1));
    let (back, contract) = stored.into_human(&servers, 0).unwrap();
    assert_eq!(back.svg_server.as_deref(), Some("server-alt"));
    assert_eq!(contract.code_hash, "hash-alt");
    // a token without its own server renders through the default
    let plain = StoredImageInfo {
        current: vec![0],
        previous: vec![0],
        natural: vec![0],
        svg_server: None,
    };
    let (back2, contract2) = plain.into_human(&servers, 0).unwrap();
    assert_eq!(back2.svg_server, None);
    assert_eq!(contract2.code_hash, "hash-default");
    // an unregistered address is refused
    let unknown = ImageInfo {
        current: vec![0],
        previous: vec![0],
        natural: vec![0],
        svg_server: Some("mystery".to_string()),
    };
    assert!(unknown.into_stored(&servers).is_err());
}

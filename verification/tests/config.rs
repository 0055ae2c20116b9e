use svg_server::admin::{add_variants, Action};
use svg_server::error::ServerError;
use svg_server::layer::{CategoryInfo, Dependencies, LayerId, VariantInfo, Weights};
use svg_server::state::{RollConfig, ServerState};

fn info(name: &str, weight: u16) -> VariantInfo {
    VariantInfo {
        name: name.to_string(),
        display_name: name.to_string(),
        svg: None,
        normal_weight: weight,
        jawless_weight: None,
        cyclops_weight: None,
    }
}

fn empty_state() -> ServerState {
    ServerState {
        categories: Vec::new(),
        variants: Vec::new(),
        roll: RollConfig { cat_cnt: 0, skip: Vec::new(), jaw_weights: vec![1, 1] },
        depends: Vec::new(),
        hiders: Vec::new(),
        gene_ledger: Vec::new(),
    }
}

fn cat_info(name: &str, vars: &[(&str, u16)]) -> CategoryInfo {
    CategoryInfo {
        name: name.to_string(),
        forced_cyclops: None,
        forced_jawless: None,
        variants: vars.iter().map(|(n, w)| info(n, *w)).collect(),
    }
}

#[test]
fn add_categories_and_variants() {
    let mut state = empty_state();
    let cnt = state
        .try_add_categories(
            &vec![
                cat_info("Background", &[("Sky", 1), ("Sea", 2)]),
                cat_info("Skull", &[("SA", 1)]),
            ],
        )
        .unwrap();
    assert_eq!(cnt, 2);
    assert_eq!(state.categories[0].name, "Background");
    assert_eq!(state.categories[0].normal_weights, vec![1, 2]);
    assert_eq!(state.variants[0][1].name, "Sea");
    // appending to an existing category keeps the old variants in place
    state.try_add_variants(&vec![cat_info("Skull", &[("SB", 3)])]).unwrap();
    assert_eq!(state.variants[1].len(), 2);
    assert_eq!(state.variants[1][0].name, "SA");
    assert_eq!(state.variants[1][1].name, "SB");
    assert_eq!(state.categories[1].normal_weights, vec![1, 3]);
}

#[test]
fn duplicate_names_are_refused() {
    let mut state = empty_state();
    state.try_add_categories(&vec![cat_info("Background", &[("Sky", 1)])]).unwrap();
    assert_eq!(
        state.try_add_categories(&vec![cat_info("Background", &[("X", 1)])]),
        Err(ServerError::CategoryExists { name: "Background".to_string() })
    );
    assert_eq!(
        state.try_add_variants(&vec![cat_info("Background", &[("Sky", 1)])]),
        Err(ServerError::VariantExists {
            category: "Background".to_string(),
            name: "Sky".to_string()
        })
    );
    assert_eq!(state.categories.len(), 1);
    assert_eq!(state.variants[0].len(), 1);
}

#[test]
fn zero_sum_and_empty_tables_are_refused() {
    let mut state = empty_state();
    assert_eq!(
        state.try_add_categories(&vec![cat_info("Background", &[("Sky", 0), ("Sea", 0)])]),
        Err(ServerError::WeightTableZero { name: "Background".to_string() })
    );
    assert_eq!(
        state.try_add_categories(&vec![cat_info("Background", &[])]),
        Err(ServerError::EmptyCategory { name: "Background".to_string() })
    );
    assert_eq!(state.categories.len(), 0);
}

#[test]
fn forced_variant_resolution() {
    let mut vars = Vec::new();
    let mut normal: Vec<u16> = Vec::new();
    let mut jawless = None;
    let mut cyclops = None;
    let forced_cyc = Some("B".to_string());
    let r = add_variants(
        &mut vars,
        &vec![info("A", 1), info("B", 2)],
        &mut normal,
        &mut jawless,
        &mut cyclops,
        &forced_cyc,
        &None,
        "Crown",
    )
    .unwrap();
    assert_eq!(r.0, Some(1), "the forced cyclops variant resolves to its index");
    assert_eq!(r.1, None);
    // an undeclared forced name is a configuration error
    let mut vars2 = Vec::new();
    let mut normal2: Vec<u16> = Vec::new();
    let mut j2 = None;
    let mut c2 = None;
    let missing = Some("Z".to_string());
    assert_eq!(
        add_variants(
            &mut vars2,
            &vec![info("A", 1)],
            &mut normal2,
            &mut j2,
            &mut c2,
            &missing,
            &None,
            "Crown",
        ),
        Err(ServerError::ForcedVariantNotFound { name: "Z".to_string(), cyclops: true })
    );
}

#[test]
fn modify_category_renames_and_reweights() {
    let mut state = empty_state();
    state.try_add_categories(&vec![cat_info("Crown", &[("A", 1), ("B", 1)])]).unwrap();
    state
        .try_modify_category(
            "Crown",
            &Some("Halo".to_string()),
            &None,
            &Some(
                Weights {
                    normal_weights: vec![5, 7],
                    jawless_weights: None,
                    cyclops_weights: None,
                },
            ),
        )
        .unwrap();
    assert_eq!(state.categories[0].name, "Halo");
    assert_eq!(state.categories[0].normal_weights, vec![5, 7]);
    // wrong lengths and zero sums are refused
    assert_eq!(
        state.try_modify_category(
            "Halo",
            &None,
            &None,
            &Some(Weights {
                normal_weights: vec![1],
                jawless_weights: None,
                cyclops_weights: None
            }),
        ),
        Err(ServerError::WeightTableLength)
    );
    assert_eq!(
        state.try_modify_category(
            "Halo",
            &None,
            &None,
            &Some(Weights {
                normal_weights: vec![0, 0],
                jawless_weights: None,
                cyclops_weights: None
            }),
        ),
        Err(ServerError::WeightTableZero { name: "Halo".to_string() })
    );
    assert_eq!(
        state.try_modify_category("Gone", &None, &None, &None),
        Err(ServerError::CategoryNameNotFound { name: "Gone".to_string() })
    );
}

#[test]
fn modify_variants_updates_entries() {
    let mut state = empty_state();
    state.try_add_categories(&vec![cat_info("Crown", &[("A", 1), ("B", 1)])]).unwrap();
    state
        .try_modify_variants(
            &vec![svg_server::layer::VariantModInfo {
                category: "Crown".to_string(),
                modifications: vec![svg_server::layer::VariantModification {
                    name: "A".to_string(),
                    modified_variant: info("A2", 9),
                }],
            }],
        )
        .unwrap();
    assert_eq!(state.variants[0][0].name, "A2");
    assert_eq!(state.categories[0].normal_weights, vec![9, 1]);
}

#[test]
fn dependency_lists_update() {
    let mut state = empty_state();
    state
        .try_add_categories(
            &vec![
                cat_info("Torso", &[("X", 1), ("W", 1)]),
                cat_info("Arms", &[("Y", 1), ("Z", 1), ("None", 1)]),
            ],
        )
        .unwrap();
    let dep = Dependencies {
        id: LayerId { category: "Torso".to_string(), variant: "X".to_string() },
        correlated: vec![LayerId { category: "Arms".to_string(), variant: "Y".to_string() }],
    };
    state.try_process_dep_list(&vec![dep.clone()], Action::Add, true).unwrap();
    assert_eq!(state.depends.len(), 1);
    assert_eq!(state.depends[0].id.category, 0);
    assert_eq!(state.depends[0].correlated[0].category, 1);
    // adding the same source again changes nothing
    state.try_process_dep_list(&vec![dep.clone()], Action::Add, true).unwrap();
    assert_eq!(state.depends.len(), 1);
    // modifying replaces the correlated pairs
    let dep2 = Dependencies {
        id: LayerId { category: "Torso".to_string(), variant: "X".to_string() },
        correlated: vec![LayerId { category: "Arms".to_string(), variant: "Z".to_string() }],
    };
    state.try_process_dep_list(&vec![dep2], Action::Modify, true).unwrap();
    assert_eq!(state.depends[0].correlated[0].variant, 1);
    // a self-referential pair is refused
    let selfdep = Dependencies {
        id: LayerId { category: "Torso".to_string(), variant: "X".to_string() },
        correlated: vec![LayerId { category: "Torso".to_string(), variant: "W".to_string() }],
    };
    assert_eq!(
        state.try_process_dep_list(&vec![selfdep], Action::Modify, true),
        Err(ServerError::SelfDependency { category: 0 })
    );
    // removal empties the list
    let rem = Dependencies {
        id: LayerId { category: "Torso".to_string(), variant: "X".to_string() },
        correlated: Vec::new(),
    };
    state.try_process_dep_list(&vec![rem], Action::Remove, true).unwrap();
    assert_eq!(state.depends.len(), 0);
    // a hider may only mask categories that keep a None variant
    let hider = Dependencies {
        id: LayerId { category: "Arms".to_string(), variant: "Y".to_string() },
        correlated: vec![LayerId { category: "Torso".to_string(), variant: "W".to_string() }],
    };
    assert_eq!(
        state.try_process_dep_list(&vec![hider], Action::Add, false),
        Err(ServerError::NoneVariantMissing { category: 0 })
    );
}

#[test]
fn roll_config_updates() {
    let mut state = empty_state();
    state
        .try_add_categories(
            &vec![
                cat_info("Background", &[("Sky", 1)]),
                cat_info("Smoke", &[("None", 1), ("Wisp", 1)]),
            ],
        )
        .unwrap();
    let skip = Some(vec!["Smoke".to_string()]);
    state.try_set_roll_config(&skip, Some(3), Some(4)).unwrap();
    assert_eq!(state.roll.skip, vec![1]);
    assert_eq!(state.roll.jaw_weights, vec![3, 4]);
    // a skipped category without a None variant is refused
    let bad = Some(vec!["Background".to_string()]);
    assert_eq!(
        state.try_set_roll_config(&bad, None, None),
        Err(ServerError::NoneVariantMissing { category: 0 })
    );
    // the jaw pair may not sum to zero
    assert_eq!(
        state.try_set_roll_config(&None, Some(0), Some(0)),
        Err(ServerError::WeightTableZero { name: "jaw".to_string() })
    );
    assert_eq!(state.roll.jaw_weights, vec![3, 4]);
}

#[test]
fn auth_list_updates() {
    let mut admins: Vec<Vec<u8>> = vec![b"alice".to_vec()];
    let changed = svg_server::auth::add_addrs_to_auth(
        &mut admins,
        &vec![b"bob".to_vec(), b"alice".to_vec()],
    );
    assert!(changed);
    assert_eq!(admins, vec![b"alice".to_vec(), b"bob".to_vec()]);
    let unchanged = svg_server::auth::add_addrs_to_auth(&mut admins, &vec![b"bob".to_vec()]);
    assert!(!unchanged);
    let removed = svg_server::auth::remove_addrs_from_auth(&mut admins, &vec![b"alice".to_vec()]);
    assert!(removed);
    assert_eq!(admins, vec![b"bob".to_vec()]);
}

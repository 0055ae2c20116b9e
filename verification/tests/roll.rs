use svg_server::layer::StoredDependencies;
use svg_server::layer::StoredLayerId;
use svg_server::roller::new_genes;
use svg_server::state::{Category, RollConfig, ServerState, Variant};

fn variant(name: &str, display: &str) -> Variant {
    Variant { name: name.to_string(), display: display.to_string(), svg: None }
}

fn category(name: &str, variants: &[(&str, &str, u16)]) -> (Category, Vec<Variant>) {
    let vars: Vec<Variant> = variants.iter().map(|(n, d, _)| variant(n, d)).collect();
    let cat = Category {
        name: name.to_string(),
        forced_cyclops: None,
        forced_jawless: None,
        normal_weights: variants.iter().map(|(_, _, w)| *w).collect(),
        jawless_weights: None,
        cyclops_weights: None,
    };
    (cat, vars)
}

/// A five-category state: background, the three archetype categories, and
/// one free category.  The jaw weighting makes every skull jawed, so the
/// chin always mirrors the skull variant's name.
fn basic_state() -> ServerState {
    let mut categories = Vec::new();
    let mut variants = Vec::new();
    for (cat, vars) in [
        category("Background", &[("Sky", "Sky", 1), ("Sea", "Sea", 1)]),
        category("Skull", &[("SA", "Skull A", 1), ("SB", "Skull B", 1)]),
        category("Jaw", &[("SA", "Jaw A", 1), ("SB", "Jaw B", 1)]),
        category("Eye Type", &[("EA", "Open", 1), ("EB", "Closed", 1)]),
        category("Extra", &[("XA", "Extra A", 1), ("XB", "Extra B", 1)]),
    ] {
        categories.push(cat);
        variants.push(vars);
    }
    ServerState {
        categories,
        variants,
        roll: RollConfig { cat_cnt: 5, skip: Vec::new(), jaw_weights: vec![1, 0] },
        depends: Vec::new(),
        hiders: Vec::new(),
        gene_ledger: Vec::new(),
    }
}

fn roll(
    state: &ServerState,
    entropy: &[u8],
    backgrounds: &[&str],
) -> Vec<svg_server::layer::GeneInfo> {
    let bgs: Vec<String> = backgrounds.iter().map(|b| b.to_string()).collect();
    new_genes(state, b"seed", 7, 99, b"minter", entropy, &bgs).expect("roll should succeed")
}

#[test]
fn basic_roll() {
    let state = basic_state();
    let genes = roll(&state, b"entropy", &["Sky"]);
    assert_eq!(genes.len(), 1);
    let g = &genes[0];
    assert_eq!(g.genetic_image.len(), 5);
    assert_eq!(g.genetic_image[0], 0, "background fixed to the requested variant");
    for i in 0..5 {
        assert!((g.genetic_image[i] as usize) < state.variants[i].len());
    }
    // background and the three archetype slots are stripped; the two
    // archetype flags are appended
    assert_eq!(g.unique_check.len(), 3);
    assert!(!state.gene_ledger.iter().any(|f| *f == g.unique_check));
    // the revealed image starts with background and archetypes disclosed
    assert_eq!(g.current_image.len(), 5);
    assert_eq!(g.current_image[0], g.genetic_image[0]);
    assert_eq!(g.current_image[1], g.genetic_image[1]);
    assert_eq!(g.current_image[4], 255, "free category undisclosed at mint");
}

#[test]
fn deterministic_rolls() {
    let state = basic_state();
    let a = roll(&state, b"fixed entropy", &["Sky", "Sea"]);
    let b = roll(&state, b"fixed entropy", &["Sky", "Sea"]);
    assert_eq!(a, b, "identical seed, entropy and context give identical genes");
    let c = roll(&state, b"other entropy", &["Sky", "Sea"]);
    assert_eq!(c.len(), 2);
}

#[test]
fn dependency_propagation() {
    // category 2 always settles to its only variant, whose dependency
    // forces category 3 to a declared value
    let mut categories = Vec::new();
    let mut variants = Vec::new();
    for (cat, vars) in [
        category("Background", &[("Sky", "Sky", 1)]),
        category("Skull", &[("SA", "Skull A", 1)]),
        category("Torso", &[("X", "Torso X", 1)]),
        category("Arms", &[("Y", "Arms Y", 1), ("Z", "Arms Z", 1)]),
        category("Jaw", &[("SA", "Jaw A", 1)]),
        category("Eye Type", &[("EA", "Open", 1)]),
    ] {
        categories.push(cat);
        variants.push(vars);
    }
    let state = ServerState {
        categories,
        variants,
        roll: RollConfig { cat_cnt: 6, skip: Vec::new(), jaw_weights: vec![1, 0] },
        depends: vec![
            StoredDependencies {
                id: StoredLayerId { category: 2, variant: 0 },
                correlated: vec![StoredLayerId { category: 3, variant: 0 }],
            },
        ],
        hiders: Vec::new(),
        gene_ledger: Vec::new(),
    };
    let genes = roll(&state, b"entropy", &["Sky"]);
    let g = &genes[0];
    assert_eq!(g.genetic_image[2], 0, "torso settles to X");
    assert_eq!(g.genetic_image[3], 0, "arms forced to Y by the dependency");
}

#[test]
fn collision_then_partial_reroll() {
    let state = basic_state();
    // learn which gene a fixed seed and entropy produce first
    let first = roll(&state, b"collide", &["Sky"]);
    let g = first[0].clone();
    // pre-seed the ledger with that fingerprint and replay the same draw
    let mut seeded = basic_state();
    seeded.gene_ledger.push(g.unique_check.clone());
    let second = roll(&seeded, b"collide", &["Sky"]);
    let g2 = &second[0];
    assert_ne!(g2.unique_check, g.unique_check, "the colliding gene is never accepted");
    assert_eq!(seeded.gene_ledger.len(), 1, "rolling alone records nothing");
    // a partial reroll keeps the archetype draws: skull, chin and eye type
    assert_eq!(g2.genetic_image[1], g.genetic_image[1]);
    assert_eq!(g2.genetic_image[2], g.genetic_image[2]);
    assert_eq!(g2.genetic_image[3], g.genetic_image[3]);
    assert_ne!(g2.genetic_image[4], g.genetic_image[4], "only the free category was redrawn");
}

#[test]
fn forced_variant_overrides_weight_table() {
    // the eye type always comes out a cyclops, and the free category
    // declares a forced-cyclops variant that its weight table disfavors
    let mut categories = Vec::new();
    let mut variants = Vec::new();
    for (cat, vars) in [
        category("Background", &[("Sky", "Sky", 1)]),
        category("Skull", &[("SA", "Skull A", 1)]),
        category("Jaw", &[("SA", "Jaw A", 1)]),
        category("Eye Type", &[("EC", "Cyclops", 1)]),
        category("Crown", &[("W", "Crown W", 10000), ("Z", "Crown Z", 0)]),
    ] {
        categories.push(cat);
        variants.push(vars);
    }
    categories[4].forced_cyclops = Some(1);
    let state = ServerState {
        categories,
        variants,
        roll: RollConfig { cat_cnt: 5, skip: Vec::new(), jaw_weights: vec![1, 0] },
        depends: Vec::new(),
        hiders: Vec::new(),
        gene_ledger: Vec::new(),
    };
    let genes = roll(&state, b"entropy", &["Sky"]);
    let g = &genes[0];
    assert_eq!(g.genetic_image[4], 1, "the forced variant wins over the weight table");
    assert_eq!(g.current_image[4], 1, "a forced variant is revealed immediately");
    assert_eq!(*g.unique_check.last().unwrap(), 0, "jawed");
    assert_eq!(g.unique_check[g.unique_check.len() - 2], 1, "cyclops flag set");
}

#[test]
fn batch_intra_collision_avoidance() {
    // three units against an empty ledger, with a trait space so small
    // that duplicates are likely without the batch supplement
    let mut state = basic_state();
    state.categories[4] = Category {
        name: "Extra".to_string(),
        forced_cyclops: None,
        forced_jawless: None,
        normal_weights: vec![1, 1, 1, 1],
        jawless_weights: None,
        cyclops_weights: None,
    };
    state.variants[4] = vec![
        variant("XA", "A"),
        variant("XB", "B"),
        variant("XC", "C"),
        variant("XD", "D"),
    ];
    // every archetype category collapses to one variant so the only
    // variation left is the free category
    state.categories[1].normal_weights = vec![1, 0];
    state.categories[2].normal_weights = vec![1, 0];
    state.categories[3].normal_weights = vec![1, 0];
    let genes = roll(&state, b"entropy", &["Sky", "Sky", "Sky"]);
    assert_eq!(genes.len(), 3);
    for a in 0..3 {
        for b in (a + 1)..3 {
            assert_ne!(genes[a].unique_check, genes[b].unique_check);
        }
    }
    // the minter then records exactly those three in the ledger
    let fps: Vec<Vec<u8>> = genes.iter().map(|g| g.unique_check.clone()).collect();
    state.add_genes(&fps).expect("fresh fingerprints are recorded");
    assert_eq!(state.gene_ledger.len(), 3);
    for g in &genes {
        assert!(state.gene_ledger.contains(&g.unique_check));
    }
    // recording any of them again is refused
    let dup = vec![genes[0].unique_check.clone()];
    assert_eq!(state.add_genes(&dup), Err(svg_server::error::ServerError::DuplicateGene));
    assert_eq!(state.gene_ledger.len(), 3, "a refused batch records nothing");
}

#[test]
fn missing_archetype_category_is_reported() {
    let mut state = basic_state();
    state.categories[3].name = "Stare".to_string();
    let bgs = vec!["Sky".to_string()];
    let r = new_genes(&state, b"seed", 7, 99, b"minter", b"e", &bgs);
    assert_eq!(
        r,
        Err(svg_server::error::ServerError::ArchetypeCategoryMissing {
            name: "Eye Type".to_string()
        })
    );
}

#[test]
fn unknown_background_is_reported() {
    let state = basic_state();
    let bgs = vec!["Volcano".to_string()];
    let r = new_genes(&state, b"seed", 7, 99, b"minter", b"e", &bgs);
    assert_eq!(
        r,
        Err(svg_server::error::ServerError::NamedVariantNotFound { name: "Volcano".to_string() })
    );
}

#[test]
fn hider_masks_fingerprint() {
    // two genes that differ only in the slot an active hider masks must
    // canonicalize identically, so the second one is a collision
    let mut state = basic_state();
    // give the free category a None variant that masking writes in
    state.variants[4] = vec![variant("XA", "A"), variant("XB", "B"), variant("None", "None")];
    state.categories[4].normal_weights = vec![1, 1, 1];
    // a sixth category acts as the hider source
    state.categories.push(
        Category {
            name: "Veil".to_string(),
            forced_cyclops: None,
            forced_jawless: None,
            normal_weights: vec![1],
            jawless_weights: None,
            cyclops_weights: None,
        },
    );
    state.variants.push(vec![variant("V", "Veil")]);
    state.roll.cat_cnt = 6;
    state.hiders = vec![
        StoredDependencies {
            id: StoredLayerId { category: 5, variant: 0 },
            correlated: vec![StoredLayerId { category: 4, variant: 0 }],
        },
    ];
    let mut uniques: Vec<Vec<u8>> = Vec::new();
    // gene one: the veil is present and the extra slot holds the hidden
    // value, so the fingerprint sees `None` there
    let g1: Vec<u8> = vec![0, 0, 0, 0, 0, 0];
    let roll_first = vec![1u8, 2, 3];
    let fp1 = svg_server::canonical::check_unique(&state, &g1, false, false, &roll_first, &mut uniques);
    let fp1 = fp1.expect("novel fingerprint accepted");
    // gene two differs only in the masked slot, already holding `None`
    let g2: Vec<u8> = vec![0, 0, 0, 0, 2, 0];
    let fp2 = svg_server::canonical::check_unique(&state, &g2, false, false, &roll_first, &mut uniques);
    assert!(fp2.is_none(), "the masked twin collides instead of counting as distinct");
    assert_eq!(fp1[0], 2, "the masked slot reads as the None variant");
}

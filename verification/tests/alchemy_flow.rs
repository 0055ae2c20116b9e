use svg_server::alchemy::{all_reveal, random_reveal, target_reveal, ImageInfo, ServeAlchemyResponse};
use svg_server::error::ServerError;
use svg_server::layer::{StoredDependencies, StoredLayerId};

fn image() -> ImageInfo {
    ImageInfo {
        current: vec![0, 255, 255, 255],
        previous: vec![0, 255, 255, 255],
        natural: vec![0, 1, 2, 1],
        svg_server: None,
    }
}

fn server_info() -> ServeAlchemyResponse {
    ServeAlchemyResponse {
        skip: Vec::new(),
        dependencies: Vec::new(),
        category_names: vec![
            "Background".to_string(),
            "Torso".to_string(),
            "Arms".to_string(),
            "Crown".to_string(),
        ],
    }
}

#[test]
fn all_reveal_discloses_everything() {
    let mut img = image();
    let names = vec![
        "Background".to_string(),
        "Torso".to_string(),
        "Arms".to_string(),
        "Crown".to_string(),
    ];
    // the first reveal of a token must be the random one
    assert_eq!(
        all_reveal(100, &mut img, &names, &Vec::new(), 10, None),
        Err(ServerError::FirstRevealMustBeRandom)
    );
    // a reveal before the cooldown is refused
    assert_eq!(
        all_reveal(100, &mut img, &names, &Vec::new(), 10, Some(95)),
        Err(ServerError::RevealTooSoon { until: 105 })
    );
    let revealed = all_reveal(105, &mut img, &names, &Vec::new(), 10, Some(95)).unwrap();
    assert_eq!(img.current, vec![0, 1, 2, 1]);
    assert_eq!(revealed, vec!["Torso".to_string(), "Arms".to_string(), "Crown".to_string()]);
    // a second full reveal finds nothing left
    assert_eq!(
        all_reveal(200, &mut img, &names, &Vec::new(), 10, Some(105)),
        Err(ServerError::AllTraitsRevealed)
    );
}

#[test]
fn target_reveal_brings_dependencies_along() {
    let mut img = image();
    let mut svr = server_info();
    svr.dependencies = vec![StoredDependencies {
        id: StoredLayerId { category: 1, variant: 1 },
        correlated: vec![StoredLayerId { category: 2, variant: 2 }],
    }];
    target_reveal(105, &mut img, &svr, "Torso", 10, Some(90)).unwrap();
    assert_eq!(img.current[1], 1, "the targeted trait is disclosed");
    assert_eq!(img.current[2], 2, "its display dependency comes along");
    assert_eq!(img.current[3], 255, "the rest stays undisclosed");
    // an unknown category name is refused
    assert_eq!(
        target_reveal(200, &mut img, &svr, "Wings", 10, Some(105)),
        Err(ServerError::CategoryNameNotFound { name: "Wings".to_string() })
    );
    // revealing the same trait twice is refused
    assert_eq!(
        target_reveal(300, &mut img, &svr, "Torso", 10, Some(105)),
        Err(ServerError::TraitAlreadyRevealed)
    );
    // the last reveal also clears unknown markers on skipped layers
    target_reveal(400, &mut img, &svr, "Crown", 10, Some(105)).unwrap();
    assert_eq!(img.current, vec![0, 1, 2, 1]);
}

#[test]
fn random_reveal_discloses_one_trait() {
    let mut img = image();
    let svr = server_info();
    let names =
        random_reveal(b"seed", 5, 50, b"owner", &mut img, &svr, b"entropy", 10, None).unwrap();
    assert_eq!(names.len(), 1);
    let disclosed: Vec<usize> =
        (0..4).filter(|i| img.current[*i] != 255 && img.natural[*i] != 0).collect();
    assert!(img.current.iter().zip(img.natural.iter()).all(|(c, n)| *c == 255 || c == n));
    assert!(!disclosed.is_empty());
    // determinism of the draw source: the same context reveals the same trait
    let mut img2 = image();
    let names2 =
        random_reveal(b"seed", 5, 50, b"owner", &mut img2, &svr, b"entropy", 10, None).unwrap();
    assert_eq!(names, names2);
    assert_eq!(img.current, img2.current);
    // cooldown applies to later reveals
    assert_eq!(
        random_reveal(b"seed", 5, 55, b"owner", &mut img, &svr, b"entropy", 10, Some(50)),
        Err(ServerError::RevealTooSoon { until: 60 })
    );
}

#[test]
fn random_reveal_exhausts_cleanly() {
    let mut img = image();
    let svr = server_info();
    // reveal the three unknown slots one by one
    for round in 0..3 {
        let t = 100 * (round + 1);
        random_reveal(b"seed", 5, t, b"owner", &mut img, &svr, b"entropy", 1, Some(1)).unwrap();
    }
    assert_eq!(img.current, img.natural);
    assert_eq!(
        random_reveal(b"seed", 5, 1000, b"owner", &mut img, &svr, b"entropy", 1, Some(1)),
        Err(ServerError::AllTraitsRevealed)
    );
}

use svg_server::error::ServerError;
use svg_server::puzzle::{
    sanitize_kp, sanitize_str, try_add_key_phrases, try_remove_key_phrases, try_solve, Keyphrase,
    SolveResponse, StoredWinner,
};
use svg_server::viewing_key::ViewingKey;
use svg_server::minter::validate_mint;
use svg_server::minter::{update_background_counts, BackgroundCount};
use svg_server::minter::serial_numbers;
use svg_server::metadata::{filter_metadata, Metadata};
#[test]
fn sanitize_drops_whitespace_and_case() {
    assert_eq!(sanitize_str("He LLo\t W0rld\n"), "hellow0rld");
    assert_eq!(sanitize_str(""), "");
    assert_eq!(sanitize_str(" \t\n"), "");
    assert_eq!(sanitize_str("already-clean"), "already-clean");
    let kp = sanitize_kp(Keyphrase {
        puzzle: "First Riddle".to_string(),
        keyphrase: "OPEN  Sesame".to_string(),
    });
    assert_eq!(kp.puzzle, "First Riddle", "the puzzle id stays as it is");
    assert_eq!(kp.keyphrase, "opensesame");
}

#[test]
fn solving_records_the_first_winner_only() {
    let mut winners = vec![StoredWinner {
        puzzle_info: Keyphrase {
            puzzle: "riddle".to_string(),
            keyphrase: "opensesame".to_string(),
        },
        winner: None,
    }];
    let wrong = Keyphrase { puzzle: "riddle".to_string(), keyphrase: "shut sesame".to_string() };
    assert_eq!(
        try_solve(&mut winners, &wrong, &b"alice".to_vec()).unwrap(),
        SolveResponse::WrongAnswer
    );
    assert_eq!(winners[0].winner, None);
    // capitalization and spacing do not matter
    let right = Keyphrase { puzzle: "riddle".to_string(), keyphrase: "Open SESAME".to_string() };
    assert_eq!(
        try_solve(&mut winners, &right, &b"alice".to_vec()).unwrap(),
        SolveResponse::Winner
    );
    assert_eq!(winners[0].winner, Some(b"alice".to_vec()));
    // a second correct answer comes too late
    assert_eq!(
        try_solve(&mut winners, &right, &b"bob".to_vec()).unwrap(),
        SolveResponse::AlreadySolved
    );
    assert_eq!(winners[0].winner, Some(b"alice".to_vec()));
    let unknown = Keyphrase { puzzle: "enigma".to_string(), keyphrase: "x".to_string() };
    assert_eq!(
        try_solve(&mut winners, &unknown, &b"bob".to_vec()),
        Err(ServerError::PuzzleNotFound { name: "enigma".to_string() })
    );
}

#[test]
fn keyphrase_lists_update() {
    let mut winners: Vec<StoredWinner> = Vec::new();
    try_add_key_phrases(
        &mut winners,
        vec![
            Keyphrase { puzzle: "one".to_string(), keyphrase: "A B".to_string() },
            Keyphrase { puzzle: "two".to_string(), keyphrase: "C".to_string() },
        ],
    )
    .unwrap();
    assert_eq!(winners.len(), 2);
    assert_eq!(winners[0].puzzle_info.keyphrase, "ab", "keyphrases enter sanitized");
    assert_eq!(winners[0].winner, None);
    // a duplicate id is refused and nothing is added
    let dup = try_add_key_phrases(
        &mut winners,
        vec![Keyphrase { puzzle: "one".to_string(), keyphrase: "x".to_string() }],
    );
    assert_eq!(dup, Err(ServerError::PuzzleExists { name: "one".to_string() }));
    assert_eq!(winners.len(), 2);
    // removal keeps the rest in order
    let changed = try_remove_key_phrases(&mut winners, &vec!["one".to_string()]);
    assert!(changed);
    assert_eq!(winners.len(), 1);
    assert_eq!(winners[0].puzzle_info.puzzle, "two");
    assert!(!try_remove_key_phrases(&mut winners, &vec!["one".to_string()]));
}

#[test]
fn viewing_keys_round_trip() {
    let key = ViewingKey::new(3, 77, b"alice", b"seed", b"entropy");
    let hashed = key.to_hashed();
    assert_eq!(hashed.len(), 32);
    assert!(key.check_viewing_key(&hashed));
    let other = ViewingKey("guess".to_string());
    assert!(!other.check_viewing_key(&hashed));
    // the same context derives the same key; fresh entropy a different one
    let again = ViewingKey::new(3, 77, b"alice", b"seed", b"entropy");
    assert_eq!(key.0, again.0);
    let fresh = ViewingKey::new(3, 77, b"alice", b"seed", b"other entropy");
    assert_ne!(key.0, fresh.0);
    // the key string is printable standard encoding of a 32-byte digest
    assert_eq!(key.0.len(), 44);
}

#[test]
fn minter_gatekeeping() {
    assert_eq!(validate_mint(true, 0, 1, 1000000, true), Err(ServerError::MintingHalted));
    assert_eq!(validate_mint(false, 0, 21, 21000000, true), Err(ServerError::MintBatchTooLarge));
    assert_eq!(validate_mint(false, 0, 0, 0, true), Err(ServerError::MintBatchTooLarge));
    assert_eq!(
        validate_mint(false, 9995, 6, 6000000, true),
        Err(ServerError::SoldOut { remaining: 5 })
    );
    assert_eq!(
        validate_mint(false, 0, 2, 1000000, true),
        Err(ServerError::WrongPayment { price: 2000000 })
    );
    assert_eq!(
        validate_mint(false, 0, 2, 2000000, false),
        Err(ServerError::WrongPayment { price: 2000000 })
    );
    assert_eq!(validate_mint(false, 40, 2, 2000000, true), Ok(41));
}

#[test]
fn background_counts_accumulate() {
    let mut counts: Vec<BackgroundCount> = Vec::new();
    let batch = vec!["Sky".to_string(), "Sea".to_string(), "Sky".to_string()];
    update_background_counts(&mut counts, &batch).unwrap();
    assert_eq!(counts.len(), 2);
    assert_eq!(counts[0].background, "Sky");
    assert_eq!(counts[0].count, 2);
    assert_eq!(counts[1].background, "Sea");
    assert_eq!(counts[1].count, 1);
}

#[test]
fn serial_numbers_are_consecutive() {
    let serials = serial_numbers(41, 3);
    assert_eq!(serials.len(), 3);
    assert_eq!(serials[0].serial_number, 41);
    assert_eq!(serials[2].serial_number, 43);
    assert_eq!(serials[0].mint_run, 1);
    assert_eq!(serials[0].quantity_minted_this_run, Some(10000));
}

#[test]
fn metadata_filtering() {
    let both = Metadata {
        token_uri: Some("ipfs://x".to_string()),
        extension: None,
    };
    assert!(matches!(filter_metadata(both), Ok(Some(_))));
    let neither = Metadata { token_uri: None, extension: None };
    assert!(matches!(filter_metadata(neither), Ok(None)));
    let conflicted = Metadata {
        token_uri: Some("ipfs://x".to_string()),
        extension: Some(svg_server::metadata::Extension {
            image: None,
            image_data: None,
            external_url: None,
            description: None,
            name: None,
            attributes: None,
            background_color: None,
            animation_url: None,
            youtube_url: None,
            media: None,
            protected_attributes: None,
        }),
    };
    assert_eq!(filter_metadata(conflicted), Err(ServerError::MetadataBothForms));
}

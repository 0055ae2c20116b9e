//! The errors the library reports.  Configuration errors are fatal in the
//! sense of the surrounding system: the call aborts and nothing is mutated.
use vstd::prelude::*;

verus! {

/// A configuration or request fault detected by the trait server logic.
#[derive(Clone, PartialEq, Debug)]
pub enum ServerError {
    /// no category carries this name
    CategoryNameNotFound { name: String },
    /// a category with this name already exists
    CategoryExists { name: String },
    /// the named category has no variant with this name
    VariantNameNotFound { category: String, name: String },
    /// the named category already has a variant with this name
    VariantExists { category: String, name: String },
    /// a background or chin lookup found no variant with this name
    NamedVariantNotFound { name: String },
    /// a category of the given index is missing its canonical `None` variant
    NoneVariantMissing { category: u8 },
    /// a replacement weight table has the wrong length
    WeightTableLength,
    /// a category was declared with no variants at all
    EmptyCategory { name: String },
    /// a weight table sums to zero, so nothing could ever be drawn from it
    WeightTableZero { name: String },
    /// a dependency or hider entry correlates a pair in its own category
    SelfDependency { category: u8 },
    /// the variant carries an archetype weight its category does not have
    UnexpectedArchetypeWeight { category: String, name: String, cyclops: bool },
    /// the variant is missing an archetype weight its category has
    MissingArchetypeWeight { category: String, name: String, cyclops: bool },
    /// the declared forced variant name was never found among the variants
    ForcedVariantNotFound { name: String, cyclops: bool },
    /// no room for another category index
    TooManyCategories,
    /// no room for another variant index in this category
    TooManyVariants { category: String },
    /// a category needed to gate the archetype roll does not exist
    ArchetypeCategoryMissing { name: String },
    /// a category index at or past the category count
    CategoryIndexOutOfBounds { count: u8 },
    /// a fingerprint was recorded twice in the gene ledger
    DuplicateGene,
    /// a variant has no dependency entry that could be modified
    DependencyNotFound { id: crate::layer::StoredLayerId },
    /// metadata carries both an off-chain uri and an on-chain extension
    MetadataBothForms,
    /// minting has been stopped
    MintingHalted,
    /// a mint call asked for no unit or for more than a batch allows
    MintBatchTooLarge,
    /// the request would pass the supply cap; this many are left
    SoldOut { remaining: u16 },
    /// the payment must be exactly this, in the smallest denomination
    WrongPayment { price: u128 },
    /// a reveal came before its cooldown ran out
    RevealTooSoon { until: u64 },
    /// the very first reveal of a token must be the random one
    FirstRevealMustBeRandom,
    /// every trait of the token is already revealed
    AllTraitsRevealed,
    /// the targeted trait is already revealed
    TraitAlreadyRevealed,
    /// no puzzle carries this id
    PuzzleNotFound { name: String },
    /// there is already a puzzle with this id
    PuzzleExists { name: String },
    /// the retry budget ran out: the configured trait space cannot supply
    /// another unique combination within the attempt budget
    RetriesExhausted,
}

} // verus!

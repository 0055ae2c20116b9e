//! Identifiers for trait layers, the dependency/hider graph entries, and the
//! request/response shapes that carry variant and weight data.
use vstd::prelude::*;

verus! {

/// Identifies a layer variant by category index and variant index.
#[derive(Clone, Copy, PartialEq, Eq, Structural, Debug)]
pub struct StoredLayerId {
    /// the layer category
    pub category: u8,
    pub variant: u8,
}

/// Identifies a layer variant by category name and variant name.
#[derive(Clone, PartialEq, Debug)]
pub struct LayerId {
    /// the layer category name
    pub category: String,
    /// the variant name
    pub variant: String,
}

/// A variant that forces (or masks) other correlated layer variants,
/// by indices.
#[derive(Clone, PartialEq, Debug)]
pub struct StoredDependencies {
    /// id of the layer variant that has dependencies
    pub id: StoredLayerId,
    /// the other layers that are correlated to this variant
    pub correlated: Vec<StoredLayerId>,
}

/// A variant that forces (or masks) other correlated layer variants,
/// by names.
#[derive(Clone, PartialEq, Debug)]
pub struct Dependencies {
    /// id of the layer variant that has dependencies
    pub id: LayerId,
    /// the other layers that are correlated to this variant
    pub correlated: Vec<LayerId>,
}

/// Randomization weight tables of one category.
#[derive(Clone, PartialEq, Debug)]
pub struct Weights {
    /// normal randomization weight table
    pub normal_weights: Vec<u16>,
    /// randomization weight table when jawless
    pub jawless_weights: Option<Vec<u16>>,
    /// randomization weight table for cyclops
    pub cyclops_weights: Option<Vec<u16>>,
}

/// Forced variants of one category, by name.
#[derive(Clone, PartialEq, Debug)]
pub struct ForcedVariants {
    /// forced variant for cyclops
    pub forced_cyclops: Option<String>,
    /// forced variant when jawless
    pub forced_jawless: Option<String>,
}

/// Trait variant information.
#[derive(Clone, PartialEq, Debug)]
pub struct VariantInfo {
    /// trait variant name
    pub name: String,
    /// display name of the trait variant
    pub display_name: String,
    /// svg data if the name is not `None`
    pub svg: Option<String>,
    /// randomization weight for this variant under the normal archetype
    pub normal_weight: u16,
    /// randomization weight for this variant when jawless
    pub jawless_weight: Option<u16>,
    /// randomization weight for cyclops
    pub cyclops_weight: Option<u16>,
}

/// Trait variant information with its index and its graph entries.
#[derive(Clone, PartialEq, Debug)]
pub struct VariantInfoPlus {
    /// index of the variant
    pub index: u8,
    /// variant info
    pub variant_info: VariantInfo,
    /// layer variants it includes
    pub includes: Vec<LayerId>,
    /// trait variants it hides at launch
    pub hides_at_launch: Vec<LayerId>,
}

/// Trait category information used to create categories and variants.
#[derive(Clone, PartialEq, Debug)]
pub struct CategoryInfo {
    /// trait category name
    pub name: String,
    /// forced variant for cyclops
    pub forced_cyclops: Option<String>,
    /// forced variant when jawless
    pub forced_jawless: Option<String>,
    /// variants of this category
    pub variants: Vec<VariantInfo>,
}

/// Modifications of the variants of one category.
#[derive(Clone, PartialEq, Debug)]
pub struct VariantModInfo {
    /// trait category name
    pub category: String,
    /// modifications to make to variants in this category
    pub modifications: Vec<VariantModification>,
}

/// One variant modification.
#[derive(Clone, PartialEq, Debug)]
pub struct VariantModification {
    /// (old) trait variant name
    pub name: String,
    /// new variant data, possibly under a new name
    pub modified_variant: VariantInfo,
}

/// One generated gene: the revealed image, the complete genetic image and
/// the fingerprint used for uniqueness checks.
#[derive(Clone, PartialEq, Debug)]
pub struct GeneInfo {
    /// image at time of minting
    pub current_image: Vec<u8>,
    /// complete genetic image
    pub genetic_image: Vec<u8>,
    /// image used for uniqueness checks
    pub unique_check: Vec<u8>,
}

/// The first entry whose source id equals `id`, if any.
pub open spec fn first_dep(
    deps: Seq<StoredDependencies>,
    id: StoredLayerId,
) -> Option<StoredDependencies>
    decreases deps.len(),
{
    if deps.len() == 0 {
        None
    } else if deps[0].id == id {
        Some(deps[0])
    } else {
        first_dep(deps.skip(1), id)
    }
}

/// A found entry is a member of the list and carries the id it was found
/// under.
pub proof fn lemma_first_dep_member(deps: Seq<StoredDependencies>, id: StoredLayerId)
    ensures
        match first_dep(deps, id) {
            Some(d) => (exists|k: int| 0 <= k < deps.len() && deps[k] == d) && d.id == id,
            None => true,
        },
    decreases deps.len(),
{
    if deps.len() > 0 {
        if deps[0].id == id {
            assert(deps[0] == deps[0]);
        } else {
            lemma_first_dep_member(deps.skip(1), id);
            match first_dep(deps.skip(1), id) {
                Some(d) => {
                    let k = choose|k: int| 0 <= k < deps.skip(1).len() && deps.skip(1)[k] == d;
                    assert(deps[k + 1] == deps.skip(1)[k]);
                },
                None => {},
            }
        }
    }
}

/// With pairwise distinct source ids, the entry found for a member's id is
/// that member.
pub proof fn lemma_first_dep_of_member(deps: Seq<StoredDependencies>, m: int)
    requires
        0 <= m < deps.len(),
        forall|k: int, l: int|
            0 <= k < deps.len() && 0 <= l < deps.len() && k != l ==> (#[trigger] deps[k]).id != (
            #[trigger] deps[l]).id,
    ensures
        first_dep(deps, deps[m].id) == Some(deps[m]),
    decreases deps.len(),
{
    if m == 0 {
    } else {
        assert(deps[0].id != deps[m].id);
        assert forall|k: int, l: int|
            0 <= k < deps.skip(1).len() && 0 <= l < deps.skip(1).len() && k != l implies (
        #[trigger] deps.skip(1)[k]).id != (#[trigger] deps.skip(1)[l]).id by {
            assert(deps.skip(1)[k] == deps[k + 1]);
            assert(deps.skip(1)[l] == deps[l + 1]);
        }
        assert(deps.skip(1)[m - 1] == deps[m]);
        lemma_first_dep_of_member(deps.skip(1), m - 1);
    }
}

/// A list holding some entry with this id resolves it.
pub proof fn lemma_first_dep_present(deps: Seq<StoredDependencies>, id: StoredLayerId, k: int)
    requires
        0 <= k < deps.len(),
        deps[k].id == id,
    ensures
        first_dep(deps, id) is Some,
    decreases deps.len(),
{
    if deps.len() > 0 && deps[0].id != id {
        assert(deps.skip(1)[k - 1] == deps[k]);
        lemma_first_dep_present(deps.skip(1), id, k - 1);
    }
}

/// A list in which no entry is keyed on this id's category holds no entry
/// for the id.
pub proof fn lemma_first_dep_absent(deps: Seq<StoredDependencies>, id: StoredLayerId)
    requires
        forall|k: int| 0 <= k < deps.len() ==> (#[trigger] deps[k]).id.category != id.category,
    ensures
        first_dep(deps, id) is None,
    decreases deps.len(),
{
    if deps.len() > 0 {
        assert(deps[0].id.category != id.category);
        assert forall|k: int| 0 <= k < deps.skip(1).len() implies (
        #[trigger] deps.skip(1)[k]).id.category != id.category by {
            assert(deps.skip(1)[k] == deps[k + 1]);
        }
        lemma_first_dep_absent(deps.skip(1), id);
    }
}

/// Finds the first entry whose source id is (`category`, `variant`), as the
/// graph lookups of the roller and the canonicalizer do.
#[verifier::loop_isolation(false)]
pub fn find_dep(deps: &Vec<StoredDependencies>, category: u8, variant: u8) -> (r: Option<usize>)
    ensures
        match r {
            Some(i) => i < deps@.len() && first_dep(deps@, StoredLayerId { category, variant })
                == Some(deps@[i as int]),
            None => first_dep(deps@, StoredLayerId { category, variant }) is None,
        },
{
    let id = StoredLayerId { category, variant };
    let mut i: usize = 0;
    proof {
        assert(deps@.skip(0) =~= deps@);
    }
    while i < deps.len()
        invariant
            i <= deps@.len(),
            first_dep(deps@, id) == first_dep(deps@.skip(i as int), id),
        decreases deps@.len() - i,
    {
        if deps[i].id == id {
            proof {
                assert(deps@.skip(i as int).len() > 0);
                assert(deps@.skip(i as int)[0] == deps@[i as int]);
                assert(first_dep(deps@.skip(i as int), id) == Some(deps@[i as int]));
            }
            return Some(i);
        }
        proof {
            assert(deps@.skip(i as int)[0] == deps@[i as int]);
            assert(deps@.skip(i as int).skip(1) =~= deps@.skip(i as int + 1));
        }
        i = i + 1;
    }
    proof {
        assert(deps@.skip(i as int).len() == 0);
    }
    None
}

} // verus!

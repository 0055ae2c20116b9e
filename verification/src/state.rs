//! The trait registry and its well-formedness: categories with weight
//! tables and forced variants, the variants of each category, the
//! dependency and hider graphs, the roll configuration and the gene ledger,
//! held as one explicit state object.
use crate::error::ServerError;
use crate::layer::{StoredDependencies, StoredLayerId};
use crate::sampler::weight_sum;
use vstd::prelude::*;

verus! {

/// A category variant: its name, its display label and its rendering
/// payload, which is opaque to the rolling logic.
#[derive(Clone, PartialEq, Debug)]
pub struct Variant {
    /// name
    pub name: String,
    /// display name
    pub display: String,
    /// svg string if the name is not `None`
    pub svg: Option<String>,
}

/// A trait category: weight tables for the normal, jawless and cyclops
/// archetypes (the latter two optional) and optional forced variants.
#[derive(Clone, PartialEq, Debug)]
pub struct Category {
    /// name
    pub name: String,
    /// forced variant for cyclops
    pub forced_cyclops: Option<u8>,
    /// forced variant when jawless
    pub forced_jawless: Option<u8>,
    /// normal randomization weight table
    pub normal_weights: Vec<u16>,
    /// randomization weight table when jawless
    pub jawless_weights: Option<Vec<u16>>,
    /// randomization weight table for cyclops
    pub cyclops_weights: Option<Vec<u16>>,
}

/// Config values needed when rolling a new unit.
#[derive(Clone, PartialEq, Debug)]
pub struct RollConfig {
    /// number of categories
    pub cat_cnt: u8,
    /// layer indices to skip when rolling
    pub skip: Vec<u8>,
    /// two-entry weight table: jawed weight then jawless weight
    pub jaw_weights: Vec<u16>,
}

/// The explicit state the roller works on: the registry, the graphs, the
/// roll configuration and the append-only ledger of issued fingerprints.
pub struct ServerState {
    /// one entry per category index
    pub categories: Vec<Category>,
    /// the variants of each category, outer index = category index
    pub variants: Vec<Vec<Variant>>,
    /// the roll configuration
    pub roll: RollConfig,
    /// variants that force other layer variants when chosen
    pub depends: Vec<StoredDependencies>,
    /// variants that mask other layer variants during uniqueness checks
    pub hiders: Vec<StoredDependencies>,
    /// fingerprints already issued; append-only
    pub gene_ledger: Vec<Vec<u8>>,
}

/// The index of the first variant carrying this name, if any.
pub open spec fn variant_index(vars: Seq<Variant>, name: Seq<char>) -> Option<int>
    decreases vars.len(),
{
    if vars.len() == 0 {
        None
    } else if vars[0].name@ == name {
        Some(0int)
    } else {
        match variant_index(vars.skip(1), name) {
            Some(i) => Some(i + 1),
            None => None,
        }
    }
}

/// The index of the first category carrying this name, if any.
pub open spec fn category_index(cats: Seq<Category>, name: Seq<char>) -> Option<int>
    decreases cats.len(),
{
    if cats.len() == 0 {
        None
    } else if cats[0].name@ == name {
        Some(0int)
    } else {
        match category_index(cats.skip(1), name) {
            Some(i) => Some(i + 1),
            None => None,
        }
    }
}

/// The canonical `None` variant index of a category's variant list.
pub open spec fn none_index(vars: Seq<Variant>) -> Option<int> {
    variant_index(vars, "None"@)
}

impl Category {
    /// Well-formedness against the category's variant count: every present
    /// weight table has exactly one entry per variant and a positive total,
    /// and forced variant indices exist.
    pub open spec fn wf(self, vlen: int) -> bool {
        &&& 1 <= vlen <= 255
        &&& self.normal_weights@.len() == vlen
        &&& weight_sum(self.normal_weights@) > 0
        &&& match self.jawless_weights {
            Some(w) => w@.len() == vlen && weight_sum(w@) > 0,
            None => true,
        }
        &&& match self.cyclops_weights {
            Some(w) => w@.len() == vlen && weight_sum(w@) > 0,
            None => true,
        }
        &&& match self.forced_cyclops {
            Some(f) => (f as int) < vlen,
            None => true,
        }
        &&& match self.forced_jawless {
            Some(f) => (f as int) < vlen,
            None => true,
        }
    }
}

impl ServerState {
    /// The number of categories.
    pub open spec fn cat_cnt(self) -> int {
        self.roll.cat_cnt as int
    }

    /// A layer id denotes an existing variant of an existing category.
    pub open spec fn wf_layer_id(self, id: StoredLayerId) -> bool {
        &&& (id.category as int) < self.cat_cnt()
        &&& (id.variant as int) < self.variants@[id.category as int]@.len()
    }

    /// A graph entry is well formed: its source and every correlated pair
    /// exist, and no correlated category equals the source category.
    pub open spec fn wf_dep_entry(self, d: StoredDependencies) -> bool {
        &&& self.wf_layer_id(d.id)
        &&& forall|j: int|
            0 <= j < d.correlated@.len() ==> #[trigger] self.wf_layer_id(d.correlated@[j])
                && d.correlated@[j].category != d.id.category
    }

    /// Every category that the hider graph can mask has a `None` variant.
    pub open spec fn wf_hider_targets(self) -> bool {
        forall|k: int, j: int|
            0 <= k < self.hiders@.len() && 0 <= j < self.hiders@[k].correlated@.len()
                ==> none_index(
                self.variants@[#[trigger] self.hiders@[k].correlated@[j].category as int]@,
            ) is Some
    }

    /// Well-formedness of the whole state: a validated, internally
    /// consistent registry as the administrative surface establishes it.
    pub open spec fn wf(self) -> bool {
        &&& self.categories@.len() == self.cat_cnt()
        &&& self.variants@.len() == self.cat_cnt()
        &&& forall|i: int|
            0 <= i < self.cat_cnt() ==> (#[trigger] self.categories@[i]).wf(
                self.variants@[i]@.len() as int,
            )
        &&& forall|k: int|
            0 <= k < self.depends@.len() ==> self.wf_dep_entry(#[trigger] self.depends@[k])
        &&& forall|k: int|
            0 <= k < self.hiders@.len() ==> self.wf_dep_entry(#[trigger] self.hiders@[k])
        &&& self.wf_hider_targets()
        &&& self.roll.jaw_weights@.len() == 2
        &&& weight_sum(self.roll.jaw_weights@) > 0
        &&& forall|k: int|
            0 <= k < self.roll.skip@.len() ==> (#[trigger] self.roll.skip@[k] as int)
                < self.cat_cnt() && none_index(self.variants@[self.roll.skip@[k] as int]@) is Some
    }

    /// No fingerprint stands in the ledger twice.
    pub open spec fn unique_ledger(self) -> bool {
        forall|i: int, j: int|
            0 <= i < j < self.gene_ledger@.len() ==> (#[trigger] self.gene_ledger@[i])@
                != (#[trigger] self.gene_ledger@[j])@
    }
}

/// Whether two string slices hold the same characters.
pub fn str_eq(a: &str, b: &str) -> (r: bool)
    ensures
        r == (a@ == b@),
{
    let sa = a.to_owned();
    let sb = b.to_owned();
    sa == sb
}

/// Whether a string holds the same characters as a string slice.
pub fn string_eq_str(a: &String, b: &str) -> (r: bool)
    ensures
        r == (a@ == b@),
{
    str_eq(a.as_str(), b)
}

/// Finds a variant by name in a category's variant list, by linear scan as
/// the name-keyed lookup of the store does.
#[verifier::loop_isolation(false)]
pub fn find_variant(vars: &Vec<Variant>, name: &str) -> (r: Option<u8>)
    requires
        vars@.len() <= 255,
    ensures
        match r {
            Some(i) => variant_index(vars@, name@) == Some(i as int),
            None => variant_index(vars@, name@) is None,
        },
{
    let mut i: usize = 0;
    proof {
        assert(vars@.skip(0) =~= vars@);
    }
    while i < vars.len()
        invariant
            i <= vars@.len(),
            variant_index(vars@, name@) == match variant_index(vars@.skip(i as int), name@) {
                Some(k) => Some(k + i),
                None => None,
            },
        decreases vars@.len() - i,
    {
        proof {
            assert(vars@.skip(i as int)[0] == vars@[i as int]);
            assert(vars@.skip(i as int).skip(1) =~= vars@.skip(i as int + 1));
        }
        if string_eq_str(&vars[i].name, name) {
            return Some(i as u8);
        }
        i = i + 1;
    }
    proof {
        assert(vars@.skip(i as int).len() == 0);
    }
    None
}

/// Finds a category by name, by linear scan.
#[verifier::loop_isolation(false)]
pub fn find_category(cats: &Vec<Category>, name: &str) -> (r: Option<u8>)
    requires
        cats@.len() <= 255,
    ensures
        match r {
            Some(i) => category_index(cats@, name@) == Some(i as int),
            None => category_index(cats@, name@) is None,
        },
{
    let mut i: usize = 0;
    proof {
        assert(cats@.skip(0) =~= cats@);
    }
    while i < cats.len()
        invariant
            i <= cats@.len(),
            category_index(cats@, name@) == match category_index(cats@.skip(i as int), name@) {
                Some(k) => Some(k + i),
                None => None,
            },
        decreases cats@.len() - i,
    {
        proof {
            assert(cats@.skip(i as int)[0] == cats@[i as int]);
            assert(cats@.skip(i as int).skip(1) =~= cats@.skip(i as int + 1));
        }
        if string_eq_str(&cats[i].name, name) {
            return Some(i as u8);
        }
        i = i + 1;
    }
    proof {
        assert(cats@.skip(i as int).len() == 0);
    }
    None
}

/// The `variant_index` spec function never points past the list.
pub proof fn lemma_variant_index_in_range(vars: Seq<Variant>, name: Seq<char>)
    ensures
        match variant_index(vars, name) {
            Some(i) => 0 <= i < vars.len() && vars[i].name@ == name,
            None => true,
        },
    decreases vars.len(),
{
    if vars.len() > 0 && vars[0].name@ != name {
        lemma_variant_index_in_range(vars.skip(1), name);
    }
}

/// The `category_index` spec function never points past the list.
pub proof fn lemma_category_index_in_range(cats: Seq<Category>, name: Seq<char>)
    ensures
        match category_index(cats, name) {
            Some(i) => 0 <= i < cats.len() && cats[i].name@ == name,
            None => true,
        },
    decreases cats.len(),
{
    if cats.len() > 0 && cats[0].name@ != name {
        lemma_category_index_in_range(cats.skip(1), name);
    }
}

impl ServerState {
    /// Retrieves the canonical `None` variant index of a category, the
    /// variant that a skipped or masked slot is set to.  Errs exactly when
    /// the category has no variant named `None`.
    pub fn none_variant_of(&self, category: u8) -> (r: Result<u8, ServerError>)
        requires
            self.wf(),
            (category as int) < self.cat_cnt(),
        ensures
            match r {
                Ok(v) => none_index(self.variants@[category as int]@) == Some(v as int),
                Err(e) => none_index(self.variants@[category as int]@) is None && e
                    == (ServerError::NoneVariantMissing { category }),
            },
    {
        proof {
            assert(self.categories@[category as int].wf(
                self.variants@[category as int]@.len() as int,
            ));
        }
        match find_variant(&self.variants[category as usize], "None") {
            Some(v) => Ok(v),
            None => Err(ServerError::NoneVariantMissing { category }),
        }
    }
}

} // verus!

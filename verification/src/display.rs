//! The read-only display surface: a variant with its weights and its graph
//! entries, and one page of a category's variants.
use crate::error::ServerError;
use crate::layer::{find_dep, first_dep, LayerId, StoredLayerId, VariantInfo, VariantInfoPlus};
use crate::state::{category_index, find_category, none_index, variant_index, ServerState};
use vstd::prelude::*;

verus! {

/// One displayed category: its identity, forced variant names, and a page
/// of its variants.
pub struct CategoryDisplay {
    /// number of categories
    pub category_count: u8,
    /// this category's index
    pub index: u8,
    /// trait category name
    pub name: String,
    /// forced variant for cyclops, by name
    pub forced_cyclops: Option<String>,
    /// forced variant when jawless, by name
    pub forced_jawless: Option<String>,
    /// number of variants in this category
    pub variant_count: u8,
    /// one page of variants
    pub variants: Vec<VariantInfoPlus>,
}

/// Resolves the layer ids of a graph entry's correlated pairs to names.
#[verifier::loop_isolation(false)]
fn display_correlated(state: &ServerState, correlated: &Vec<StoredLayerId>) -> (r: Result<
    Vec<LayerId>,
    ServerError,
>)
    requires
        state.wf(),
        forall|j: int| 0 <= j < correlated@.len() ==> state.wf_layer_id(#[trigger] correlated@[j]),
    ensures
        match r {
            Ok(list) => list@.len() == correlated@.len() && forall|j: int|
                0 <= j < list@.len() ==> ((#[trigger] list@[j]).category@
                    == state.categories@[correlated@[j].category as int].name@ && list@[j].variant@
                    == state.variants@[correlated@[j].category as int]@[
                    correlated@[j].variant as int
                ].name@),
            Err(_) => false,
        },
{
    let mut list: Vec<LayerId> = Vec::new();
    let mut j: usize = 0;
    while j < correlated.len()
        invariant
            j <= correlated@.len(),
            list@.len() == j,
            forall|q: int|
                0 <= q < j ==> ((#[trigger] list@[q]).category@
                    == state.categories@[correlated@[q].category as int].name@ && list@[q].variant@
                    == state.variants@[correlated@[q].category as int]@[
                    correlated@[q].variant as int
                ].name@),
        decreases correlated@.len() - j,
    {
        match correlated[j].to_display(state) {
            Ok(l) => {
                list.push(l);
            },
            Err(_) => {
                proof {
                    assert(state.wf_layer_id(correlated@[j as int]));
                    assert(false);
                }
            },
        }
        j = j + 1;
    }
    Ok(list)
}

/// Builds the display form of one layer variant: its data, its weights
/// under each archetype, the layers it includes through the dependency
/// graph, and the variants it hides at launch.  Errs exactly when the id
/// is out of range.
#[verifier::loop_isolation(false)]
pub fn displ_variant(state: &ServerState, id: &StoredLayerId, svgs: bool) -> (r: Result<
    VariantInfoPlus,
    ServerError,
>)
    requires
        state.wf(),
    ensures
        match r {
            Ok(v) => {
                let cat = state.categories@[id.category as int];
                let var = state.variants@[id.category as int]@[id.variant as int];
                &&& state.wf_layer_id(*id)
                &&& v.index == id.variant
                &&& v.variant_info.name == var.name
                &&& v.variant_info.display_name == var.display
                &&& (if svgs {
                    v.variant_info.svg == var.svg
                } else {
                    v.variant_info.svg is None
                })
                &&& v.variant_info.normal_weight == cat.normal_weights@[id.variant as int]
                &&& v.includes@.len() == (match first_dep(state.depends@, *id) {
                    Some(d) => d.correlated@.len(),
                    None => 0,
                })
                &&& v.hides_at_launch@.len() == (match first_dep(state.hiders@, *id) {
                    Some(d) => d.correlated@.len(),
                    None => 0,
                })
            },
            Err(_) => !state.wf_layer_id(*id),
        },
{
    if (id.category as usize) >= state.categories.len() {
        return Err(ServerError::CategoryIndexOutOfBounds { count: state.roll.cat_cnt });
    }
    proof {
        assert(state.categories@[id.category as int].wf(
            state.variants@[id.category as int]@.len() as int,
        ));
    }
    let cat = &state.categories[id.category as usize];
    if (id.variant as usize) >= state.variants[id.category as usize].len() {
        return Err(ServerError::CategoryIndexOutOfBounds { count: state.roll.cat_cnt });
    }
    let var = &state.variants[id.category as usize][id.variant as usize];
    // the layers this variant includes, and the ones it hides at launch
    let includes = match find_dep(&state.depends, id.category, id.variant) {
        Some(k) => {
            proof {
                assert(state.wf_dep_entry(state.depends@[k as int]));
            }
            match display_correlated(state, &state.depends[k].correlated) {
                Ok(l) => l,
                Err(e) => {
                    return Err(e);
                },
            }
        },
        None => Vec::new(),
    };
    let hides_at_launch = match find_dep(&state.hiders, id.category, id.variant) {
        Some(k) => {
            proof {
                assert(state.wf_dep_entry(state.hiders@[k as int]));
            }
            match display_correlated(state, &state.hiders[k].correlated) {
                Ok(l) => l,
                Err(e) => {
                    return Err(e);
                },
            }
        },
        None => Vec::new(),
    };
    let variant_info = VariantInfo {
        name: var.name.clone(),
        display_name: var.display.clone(),
        svg: if svgs {
            match &var.svg {
                Some(s) => Some(s.clone()),
                None => None,
            }
        } else {
            None
        },
        normal_weight: cat.normal_weights[id.variant as usize],
        jawless_weight: match &cat.jawless_weights {
            Some(w) => Some(w[id.variant as usize]),
            None => None,
        },
        cyclops_weight: match &cat.cyclops_weights {
            Some(w) => Some(w[id.variant as usize]),
            None => None,
        },
    };
    Ok(VariantInfoPlus { index: id.variant, variant_info, includes, hides_at_launch })
}

/// Displays one trait category — found by name, by index, or the first one
/// — with one page of its variants.  The page is smaller when payloads are
/// displayed, as the caller's default limit shows.
#[verifier::loop_isolation(false)]
pub fn query_category(
    state: &ServerState,
    name: &Option<String>,
    index: Option<u8>,
    start_at: Option<u8>,
    limit: Option<u8>,
    display_svg: Option<bool>,
) -> (r: Result<CategoryDisplay, ServerError>)
    requires
        state.wf(),
    ensures
        match r {
            Ok(d) => {
                &&& d.category_count == state.roll.cat_cnt
                &&& (d.index as int) < state.cat_cnt()
                &&& d.name == state.categories@[d.index as int].name
                &&& (match name {
                    Some(n) => category_index(state.categories@, n@) == Some(d.index as int),
                    None => match index {
                        Some(i) => d.index == i,
                        None => d.index == 0,
                    },
                })
                &&& d.variant_count as int == state.variants@[d.index as int]@.len()
                &&& forall|q: int|
                    0 <= q < d.variants@.len() ==> (#[trigger] d.variants@[q]).index as int
                        == start_at.unwrap_or(0) + q
            },
            Err(_) => true,
        },
{
    let svgs = display_svg.unwrap_or(false);
    let max: u8 = match limit {
        Some(l) => l,
        None => if svgs {
            5
        } else {
            30
        },
    };
    let start: u8 = start_at.unwrap_or(0);
    let cat_idx: u8 = match name {
        Some(n) => match find_category(&state.categories, n.as_str()) {
            Some(i) => i,
            None => {
                return Err(ServerError::CategoryNameNotFound { name: n.clone() });
            },
        },
        None => match index {
            Some(i) => {
                if i >= state.roll.cat_cnt {
                    return Err(
                        ServerError::CategoryIndexOutOfBounds { count: state.roll.cat_cnt },
                    );
                }
                i
            },
            None => {
                if state.roll.cat_cnt == 0 {
                    return Err(ServerError::CategoryIndexOutOfBounds { count: 0 });
                }
                0
            },
        },
    };
    proof {
        match name {
            Some(n) => {
                crate::state::lemma_category_index_in_range(state.categories@, n@);
            },
            None => {},
        }
        assert(state.categories@[cat_idx as int].wf(
            state.variants@[cat_idx as int]@.len() as int,
        ));
    }
    let cat = &state.categories[cat_idx as usize];
    let variant_count = state.variants[cat_idx as usize].len() as u8;
    let end: u8 = if start > variant_count || max > variant_count - start {
        variant_count
    } else {
        start + max
    };
    let mut variants: Vec<VariantInfoPlus> = Vec::new();
    let mut idx: u8 = start;
    while idx < end
        invariant
            state.wf(),
            start <= idx <= end || (start > end && idx == start),
            (cat_idx as int) < state.cat_cnt(),
            end as int <= state.variants@[cat_idx as int]@.len(),
            variants@.len() == (if idx >= start {
                idx - start
            } else {
                0int
            }),
            forall|q: int|
                0 <= q < variants@.len() ==> (#[trigger] variants@[q]).index as int == start + q,
        decreases end as int - idx,
    {
        let layer_id = StoredLayerId { category: cat_idx, variant: idx };
        match displ_variant(state, &layer_id, svgs) {
            Ok(v) => {
                variants.push(v);
            },
            Err(_) => {
                proof {
                    assert(state.wf_layer_id(layer_id));
                    assert(false);
                }
            },
        }
        idx = idx + 1;
    }
    let forced_cyclops: Option<String> = match cat.forced_cyclops {
        Some(f) => Some(state.variants[cat_idx as usize][f as usize].name.clone()),
        None => None,
    };
    let forced_jawless: Option<String> = match cat.forced_jawless {
        Some(f) => Some(state.variants[cat_idx as usize][f as usize].name.clone()),
        None => None,
    };
    Ok(
        CategoryDisplay {
            category_count: state.roll.cat_cnt,
            index: cat_idx,
            name: cat.name.clone(),
            forced_cyclops,
            forced_jawless,
            variant_count,
            variants,
        },
    )
}

} // verus!

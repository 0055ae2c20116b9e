//! The administrative surface over the registry: creating and modifying
//! categories, variants, weight tables, forced variants, the dependency and
//! hider graphs, and the roll configuration.
//!
//! Every operation validates first and commits only afterwards: a call that
//! errs leaves the state exactly as it found it, and a call that succeeds
//! leaves the state well-formed, which is what the roller relies on.
use crate::error::ServerError;
use crate::layer::{find_dep, first_dep, Dependencies, LayerId, StoredDependencies, StoredLayerId, VariantInfo};
use crate::sampler::{sum_weights, weight_sum};
use crate::state::{
    category_index, find_category, find_variant, none_index, variant_index, Category, ServerState,
    Variant,
};
use vstd::pervasive::VecAdditionalExecFns;
use vstd::prelude::*;

verus! {

/// The index of the first variant description carrying this name, if any.
pub open spec fn info_index(vs: Seq<VariantInfo>, name: Seq<char>) -> Option<int>
    decreases vs.len(),
{
    if vs.len() == 0 {
        None
    } else if vs[0].name@ == name {
        Some(0int)
    } else {
        match info_index(vs.skip(1), name) {
            Some(i) => Some(i + 1),
            None => None,
        }
    }
}

pub proof fn lemma_info_index_in_range(vs: Seq<VariantInfo>, name: Seq<char>)
    ensures
        match info_index(vs, name) {
            Some(i) => 0 <= i < vs.len() && vs[i].name@ == name,
            None => true,
        },
    decreases vs.len(),
{
    if vs.len() > 0 && vs[0].name@ != name {
        lemma_info_index_in_range(vs.skip(1), name);
    }
}

/// The sum of a concatenation is the sum of the parts.
pub proof fn lemma_weight_sum_append(a: Seq<u16>, b: Seq<u16>)
    ensures
        weight_sum(a + b) == weight_sum(a) + weight_sum(b),
    decreases b.len(),
{
    if b.len() == 0 {
        assert(a + b =~= a);
    } else {
        assert((a + b).drop_last() =~= a + b.drop_last());
        lemma_weight_sum_append(a, b.drop_last());
    }
}

/// What `add_variants` makes of the new variant descriptions.
pub open spec fn added_variants(
    old_vars: Seq<Variant>,
    new_vars: Seq<Variant>,
    infos: Seq<VariantInfo>,
) -> bool {
    &&& new_vars.len() == old_vars.len() + infos.len()
    &&& forall|i: int| 0 <= i < old_vars.len() ==> new_vars[i] == old_vars[i]
    &&& forall|k: int|
        0 <= k < infos.len() ==> (#[trigger] new_vars[old_vars.len() + k]).name == infos[k].name
            && new_vars[old_vars.len() + k].display == infos[k].display_name
            && new_vars[old_vars.len() + k].svg == infos[k].svg
}

/// Appends new trait variants to one category's variant list and weight
/// tables, resolving the optional forced variant names to their indices.
/// Errs — changing nothing — when a variant name already exists, when a
/// variant and its category disagree about which archetype weights exist,
/// when a declared forced variant name never appears, or when the category
/// would outgrow its index space.
#[verifier::loop_isolation(false)]
#[verifier::rlimit(60)]
pub fn add_variants(
    vars: &mut Vec<Variant>,
    infos: &Vec<VariantInfo>,
    normal_weights: &mut Vec<u16>,
    jawless_weights: &mut Option<Vec<u16>>,
    cyclops_weights: &mut Option<Vec<u16>>,
    forced_cyclops: &Option<String>,
    forced_jawless: &Option<String>,
    cat_name: &str,
) -> (r: Result<(Option<u8>, Option<u8>), ServerError>)
    requires
        old(vars)@.len() <= 255,
        old(normal_weights)@.len() == old(vars)@.len(),
        match *old(jawless_weights) {
            Some(w) => w@.len() == old(vars)@.len() && old(vars)@.len() > 0,
            None => true,
        },
        match *old(cyclops_weights) {
            Some(w) => w@.len() == old(vars)@.len() && old(vars)@.len() > 0,
            None => true,
        },
    ensures
        match r {
            Ok(forced) => {
                &&& added_variants(old(vars)@, final(vars)@, infos@)
                &&& final(vars)@.len() <= 255
                &&& final(normal_weights)@.len() == final(vars)@.len()
                &&& forall|i: int|
                    0 <= i < old(vars)@.len() ==> final(normal_weights)@[i] == old(
                        normal_weights,
                    )@[i]
                &&& forall|k: int|
                    0 <= k < infos@.len() ==> final(normal_weights)@[old(vars)@.len() + k] == (
                    #[trigger] infos@[k]).normal_weight
                &&& weight_sum(final(normal_weights)@) == weight_sum(old(normal_weights)@)
                    + weight_sum(infos@.map_values(|v: VariantInfo| v.normal_weight))
                &&& match *final(jawless_weights) {
                    Some(w) => w@.len() == final(vars)@.len() && final(vars)@.len() > 0,
                    None => true,
                }
                &&& match *final(cyclops_weights) {
                    Some(w) => w@.len() == final(vars)@.len() && final(vars)@.len() > 0,
                    None => true,
                }
                &&& match *old(jawless_weights) {
                    Some(ow) => match *final(jawless_weights) {
                        Some(w) => weight_sum(w@) >= weight_sum(ow@),
                        None => false,
                    },
                    None => true,
                }
                &&& match *old(cyclops_weights) {
                    Some(ow) => match *final(cyclops_weights) {
                        Some(w) => weight_sum(w@) >= weight_sum(ow@),
                        None => false,
                    },
                    None => true,
                }
                &&& (*old(jawless_weights) is None && old(vars)@.len() > 0
                    ==> *final(jawless_weights) is None)
                &&& (*old(cyclops_weights) is None && old(vars)@.len() > 0
                    ==> *final(cyclops_weights) is None)
                &&& forced.0 == (match forced_cyclops {
                    Some(f) => match info_index(infos@, f@) {
                        Some(k) => Some((old(vars)@.len() + k) as u8),
                        None => None,
                    },
                    None => None,
                })
                &&& forced.1 == (match forced_jawless {
                    Some(f) => match info_index(infos@, f@) {
                        Some(k) => Some((old(vars)@.len() + k) as u8),
                        None => None,
                    },
                    None => None,
                })
                &&& (forced_cyclops is Some ==> forced.0 is Some)
                &&& (forced_jawless is Some ==> forced.1 is Some)
            },
            Err(e) => {
                &&& *final(vars) == *old(vars)
                &&& *final(normal_weights) == *old(normal_weights)
                &&& *final(jawless_weights) == *old(jawless_weights)
                &&& *final(cyclops_weights) == *old(cyclops_weights)
                &&& ((e matches ServerError::VariantExists { .. }) || (e matches
                    ServerError::UnexpectedArchetypeWeight { .. }) || (e matches
                    ServerError::MissingArchetypeWeight { .. }) || (e matches
                    ServerError::ForcedVariantNotFound { .. }) || (e matches
                    ServerError::TooManyVariants { .. }))
            },
        },
{
    // the variant index space stops at 254: 255 is the wire sentinel
    if infos.len() > 255 || vars.len() + infos.len() > 255 {
        return Err(ServerError::TooManyVariants { category: cat_name.to_owned() });
    }
    // build everything aside first: an error must leave no partial write
    let mut new_vars: Vec<Variant> = Vec::new();
    let mut new_normal: Vec<u16> = Vec::new();
    let mut new_jawless: Vec<u16> = Vec::new();
    let mut new_cyclops: Vec<u16> = Vec::new();
    let had_jawless = jawless_weights.is_some();
    let had_cyclops = cyclops_weights.is_some();
    let starts_empty = vars.len() == 0;
    let mut make_jawless = had_jawless;
    let mut make_cyclops = had_cyclops;
    let ghost old_len = vars@.len() as int;
    let mut k: usize = 0;
    while k < infos.len()
        invariant
            k <= infos@.len(),
            old_len == vars@.len(),
            new_vars@.len() == k,
            new_normal@.len() == k,
            make_jawless ==> new_jawless@.len() == k,
            make_cyclops ==> new_cyclops@.len() == k,
            had_jawless ==> make_jawless,
            had_cyclops ==> make_cyclops,
            (!had_jawless && !starts_empty) ==> !make_jawless,
            (!had_cyclops && !starts_empty) ==> !make_cyclops,
            (!had_jawless && make_jawless) ==> k >= 1,
            (!had_cyclops && make_cyclops) ==> k >= 1,
            !make_jawless ==> new_jawless@.len() == 0,
            !make_cyclops ==> new_cyclops@.len() == 0,
            forall|i: int|
                0 <= i < k ==> (#[trigger] new_vars@[i]).name == infos@[i].name && new_vars@[i].display
                    == infos@[i].display_name && new_vars@[i].svg == infos@[i].svg,
            forall|i: int| 0 <= i < k ==> new_normal@[i] == (#[trigger] infos@[i]).normal_weight,
            new_normal@ == infos@.map_values(|v: VariantInfo| v.normal_weight).take(k as int),
        decreases infos@.len() - k,
    {
        let inf = &infos[k];
        // reject a duplicate name, against the category and this batch
        if find_variant(vars, inf.name.as_str()).is_some() || find_variant(
            &new_vars,
            inf.name.as_str(),
        ).is_some() {
            return Err(
                ServerError::VariantExists {
                    category: cat_name.to_owned(),
                    name: inf.name.clone(),
                },
            );
        }
        match &inf.jawless_weight {
            Some(w) => {
                if k == 0 && starts_empty && !had_jawless {
                    make_jawless = true;
                }
                if !make_jawless {
                    return Err(
                        ServerError::UnexpectedArchetypeWeight {
                            category: cat_name.to_owned(),
                            name: inf.name.clone(),
                            cyclops: false,
                        },
                    );
                }
                new_jawless.push(*w);
            },
            None => {
                if make_jawless {
                    return Err(
                        ServerError::MissingArchetypeWeight {
                            category: cat_name.to_owned(),
                            name: inf.name.clone(),
                            cyclops: false,
                        },
                    );
                }
            },
        }
        match &inf.cyclops_weight {
            Some(w) => {
                if k == 0 && starts_empty && !had_cyclops {
                    make_cyclops = true;
                }
                if !make_cyclops {
                    return Err(
                        ServerError::UnexpectedArchetypeWeight {
                            category: cat_name.to_owned(),
                            name: inf.name.clone(),
                            cyclops: true,
                        },
                    );
                }
                new_cyclops.push(*w);
            },
            None => {
                if make_cyclops {
                    return Err(
                        ServerError::MissingArchetypeWeight {
                            category: cat_name.to_owned(),
                            name: inf.name.clone(),
                            cyclops: true,
                        },
                    );
                }
            },
        }
        new_vars.push(
            Variant { name: inf.name.clone(), display: inf.display_name.clone(), svg: inf.svg.clone() },
        );
        new_normal.push(inf.normal_weight);
        proof {
            assert(new_normal@ =~= infos@.map_values(|v: VariantInfo| v.normal_weight).take(
                k as int + 1,
            ));
        }
        k = k + 1;
    }
    // resolve the forced variant names among the new variants
    let cyclops_idx: Option<u8> = match forced_cyclops {
        Some(f) => {
            match find_info(infos, f.as_str()) {
                Some(i) => Some((vars.len() + i as usize) as u8),
                None => {
                    return Err(
                        ServerError::ForcedVariantNotFound { name: f.clone(), cyclops: true },
                    );
                },
            }
        },
        None => None,
    };
    let jawless_idx: Option<u8> = match forced_jawless {
        Some(f) => {
            match find_info(infos, f.as_str()) {
                Some(i) => Some((vars.len() + i as usize) as u8),
                None => {
                    return Err(
                        ServerError::ForcedVariantNotFound { name: f.clone(), cyclops: false },
                    );
                },
            }
        },
        None => None,
    };
    // commit
    let ghost old_normal = normal_weights@;
    let ghost nn = new_normal@;
    let ghost nv = new_vars@;
    vars.append(&mut new_vars);
    normal_weights.append(&mut new_normal);
    proof {
        assert(nn =~= infos@.map_values(|v: VariantInfo| v.normal_weight));
        lemma_weight_sum_append(old_normal, nn);
    }
    if make_jawless {
        let mut w: Vec<u16> = Vec::new();
        match &*jawless_weights {
            Some(ow) => {
                proof {
                    assert(ow@.len() == old_len);
                }
                append_u16(&mut w, ow);
            },
            None => {
                proof {
                    assert(old_len == 0);
                }
            },
        }
        let ghost base = w@;
        w.append(&mut new_jawless);
        proof {
            lemma_weight_sum_append(base, w@.skip(base.len() as int));
            assert(w@.skip(base.len() as int) =~= w@.subrange(base.len() as int, w@.len() as int));
            assert(base + w@.skip(base.len() as int) =~= w@);
            crate::sampler::lemma_weight_sum_bounds(w@.skip(base.len() as int));
            assert(weight_sum(w@) >= weight_sum(base));
            assert(w@.len() == old_len + infos@.len());
            assert(vars@.len() == old_len + infos@.len());
        }
        *jawless_weights = Some(w);
    }
    if make_cyclops {
        let mut w: Vec<u16> = Vec::new();
        match &*cyclops_weights {
            Some(ow) => {
                proof {
                    assert(ow@.len() == old_len);
                }
                append_u16(&mut w, ow);
            },
            None => {
                proof {
                    assert(old_len == 0);
                }
            },
        }
        let ghost base = w@;
        w.append(&mut new_cyclops);
        proof {
            lemma_weight_sum_append(base, w@.skip(base.len() as int));
            assert(w@.skip(base.len() as int) =~= w@.subrange(base.len() as int, w@.len() as int));
            assert(base + w@.skip(base.len() as int) =~= w@);
            crate::sampler::lemma_weight_sum_bounds(w@.skip(base.len() as int));
            assert(weight_sum(w@) >= weight_sum(base));
            assert(w@.len() == old_len + infos@.len());
            assert(vars@.len() == old_len + infos@.len());
        }
        *cyclops_weights = Some(w);
    }
    proof {
        match &*jawless_weights {
            Some(w) => {
                assert(w@.len() == vars@.len());
            },
            None => {},
        }
        match &*cyclops_weights {
            Some(w) => {
                assert(w@.len() == vars@.len());
            },
            None => {},
        }
        match forced_cyclops {
            Some(f) => {
                lemma_info_index_in_range(infos@, f@);
            },
            None => {},
        }
        match forced_jawless {
            Some(f) => {
                lemma_info_index_in_range(infos@, f@);
            },
            None => {},
        }
    }
    Ok((cyclops_idx, jawless_idx))
}

/// Appends every weight of `more` to `out`, in order.
#[verifier::loop_isolation(false)]
pub fn append_u16(out: &mut Vec<u16>, more: &Vec<u16>)
    ensures
        final(out)@ == old(out)@ + more@,
{
    let ghost orig = out@;
    let mut i: usize = 0;
    while i < more.len()
        invariant
            i <= more@.len(),
            out@ == orig + more@.take(i as int),
        decreases more@.len() - i,
    {
        out.push(more[i]);
        proof {
            assert(orig + more@.take(i as int) + seq![more@[i as int]] =~= orig + more@.take(
                i as int + 1,
            ));
        }
        i = i + 1;
    }
    proof {
        assert(orig + more@.take(more@.len() as int) =~= orig + more@);
    }
}

impl ServerState {
    /// Adds new trait categories, each with its starting variants, weight
    /// tables and forced variants, and returns the new category count.
    /// Errs — changing nothing — on a duplicate category name, an empty
    /// category, a zero-sum weight table, a missing forced variant, or an
    /// exhausted index space.
    #[verifier::loop_isolation(false)]
    #[verifier::rlimit(60)]
    pub fn try_add_categories(&mut self, categories: &Vec<crate::layer::CategoryInfo>) -> (r:
        Result<u8, ServerError>)
        requires
            old(self).wf(),
        ensures
            final(self).wf(),
            final(self).roll.skip == old(self).roll.skip,
            final(self).roll.jaw_weights == old(self).roll.jaw_weights,
            final(self).depends == old(self).depends,
            final(self).hiders == old(self).hiders,
            final(self).gene_ledger == old(self).gene_ledger,
            match r {
                Ok(cnt) => {
                    &&& cnt as int == final(self).cat_cnt()
                    &&& final(self).cat_cnt() == old(self).cat_cnt() + categories@.len()
                    &&& forall|i: int|
                        0 <= i < old(self).cat_cnt() ==> final(self).categories@[i] == old(
                            self,
                        ).categories@[i] && final(self).variants@[i] == old(self).variants@[i]
                    &&& forall|k: int|
                        0 <= k < categories@.len()
                            ==> (#[trigger] final(self).categories@[old(self).cat_cnt() + k]).name
                            == categories@[k].name && added_variants(
                            Seq::empty(),
                            final(self).variants@[old(self).cat_cnt() + k]@,
                            categories@[k].variants@,
                        )
                },
                Err(e) => {
                    &&& *final(self) == *old(self)
                    &&& (e matches ServerError::TooManyCategories ==> old(self).cat_cnt()
                        + categories@.len() > 255)
                    &&& (e matches ServerError::EmptyCategory { name } ==> exists|q: int|
                        0 <= q < categories@.len() && (#[trigger] categories@[q]).name@ == name@
                            && categories@[q].variants@.len() == 0)
                    &&& (e matches ServerError::CategoryExists { name } ==> category_index(
                        old(self).categories@,
                        name@,
                    ) is Some || exists|q: int, q2: int|
                        0 <= q2 < q < categories@.len() && (#[trigger] categories@[q]).name@
                            == name@ && (#[trigger] categories@[q2]).name@ == name@)
                },
            },
    {
        let have = self.roll.cat_cnt as usize;
        if categories.len() > 255 - have {
            return Err(ServerError::TooManyCategories);
        }
        let mut new_cats: Vec<Category> = Vec::new();
        let mut new_vars: Vec<Vec<Variant>> = Vec::new();
        let mut k: usize = 0;
        while k < categories.len()
            invariant
                k <= categories@.len(),
                categories@.len() <= 255 - self.cat_cnt(),
                new_cats@.len() == k,
                new_vars@.len() == k,
                forall|i: int|
                    0 <= i < k ==> (#[trigger] new_cats@[i]).wf(new_vars@[i]@.len() as int),
                forall|i: int|
                    0 <= i < k ==> (#[trigger] new_cats@[i]).name == categories@[i].name
                        && added_variants(Seq::empty(), new_vars@[i]@, categories@[i].variants@),
            decreases categories@.len() - k,
        {
            let cat_inf = &categories[k];
            if find_category(&self.categories, cat_inf.name.as_str()).is_some() {
                proof {
                    crate::state::lemma_category_index_in_range(
                        self.categories@,
                        cat_inf.name@,
                    );
                }
                return Err(ServerError::CategoryExists { name: cat_inf.name.clone() });
            }
            if find_category(&new_cats, cat_inf.name.as_str()).is_some() {
                proof {
                    crate::state::lemma_category_index_in_range(new_cats@, cat_inf.name@);
                    let q2 = category_index(new_cats@, cat_inf.name@).unwrap();
                    assert(categories@[q2].name@ == cat_inf.name@);
                    assert(categories@[k as int].name@ == cat_inf.name@);
                }
                return Err(ServerError::CategoryExists { name: cat_inf.name.clone() });
            }
            if cat_inf.variants.len() == 0 {
                return Err(ServerError::EmptyCategory { name: cat_inf.name.clone() });
            }
            let mut vars: Vec<Variant> = Vec::new();
            let mut normal: Vec<u16> = Vec::new();
            let mut jawless: Option<Vec<u16>> = None;
            let mut cyclops: Option<Vec<u16>> = None;
            let forced = match add_variants(
                &mut vars,
                &cat_inf.variants,
                &mut normal,
                &mut jawless,
                &mut cyclops,
                &cat_inf.forced_cyclops,
                &cat_inf.forced_jawless,
                cat_inf.name.as_str(),
            ) {
                Ok(f) => f,
                Err(e) => {
                    return Err(e);
                },
            };
            if sum_weights(normal.as_slice()) == 0 {
                return Err(ServerError::WeightTableZero { name: cat_inf.name.clone() });
            }
            let jawless_zero = match &jawless {
                Some(w) => sum_weights(w.as_slice()) == 0,
                None => false,
            };
            let cyclops_zero = match &cyclops {
                Some(w) => sum_weights(w.as_slice()) == 0,
                None => false,
            };
            if jawless_zero || cyclops_zero {
                return Err(ServerError::WeightTableZero { name: cat_inf.name.clone() });
            }
            proof {
                match &cat_inf.forced_cyclops {
                    Some(f) => {
                        lemma_info_index_in_range(cat_inf.variants@, f@);
                    },
                    None => {},
                }
                match &cat_inf.forced_jawless {
                    Some(f) => {
                        lemma_info_index_in_range(cat_inf.variants@, f@);
                    },
                    None => {},
                }
            }
            let cat = Category {
                name: cat_inf.name.clone(),
                forced_cyclops: forced.0,
                forced_jawless: forced.1,
                normal_weights: normal,
                jawless_weights: jawless,
                cyclops_weights: cyclops,
            };
            proof {
                assert(cat.wf(vars@.len() as int));
            }
            new_cats.push(cat);
            new_vars.push(vars);
            k = k + 1;
        }
        // commit: everything validated, nothing can fail from here on
        let ghost old_cnt = self.cat_cnt();
        let ghost nc = new_cats@;
        let ghost nv = new_vars@;
        self.categories.append(&mut new_cats);
        self.variants.append(&mut new_vars);
        self.roll.cat_cnt = self.roll.cat_cnt + (categories.len() as u8);
        proof {
            assert forall|i: int| 0 <= i < self.cat_cnt() implies (
            #[trigger] self.categories@[i]).wf(self.variants@[i]@.len() as int) by {
                if i < old_cnt {
                    assert(old(self).categories@[i].wf(old(self).variants@[i]@.len() as int));
                } else {
                    assert(self.categories@[i] == nc[i - old_cnt]);
                    assert(self.variants@[i] == nv[i - old_cnt]);
                }
            }
            assert forall|k2: int| 0 <= k2 < self.depends@.len() implies self.wf_dep_entry(
                #[trigger] self.depends@[k2],
            ) by {
                assert(old(self).wf_dep_entry(old(self).depends@[k2]));
                assert forall|j: int|
                    0 <= j < self.depends@[k2].correlated@.len() implies #[trigger] self.wf_layer_id(
                    self.depends@[k2].correlated@[j],
                ) && self.depends@[k2].correlated@[j].category != self.depends@[k2].id.category by {
                    assert(old(self).wf_layer_id(old(self).depends@[k2].correlated@[j]));
                }
            }
            assert forall|k2: int| 0 <= k2 < self.hiders@.len() implies self.wf_dep_entry(
                #[trigger] self.hiders@[k2],
            ) by {
                assert(old(self).wf_dep_entry(old(self).hiders@[k2]));
                assert forall|j: int|
                    0 <= j < self.hiders@[k2].correlated@.len() implies #[trigger] self.wf_layer_id(
                    self.hiders@[k2].correlated@[j],
                ) && self.hiders@[k2].correlated@[j].category != self.hiders@[k2].id.category by {
                    assert(old(self).wf_layer_id(old(self).hiders@[k2].correlated@[j]));
                }
            }
            assert(self.wf_hider_targets()) by {
                assert forall|k2: int, j: int|
                    0 <= k2 < self.hiders@.len() && 0 <= j
                        < self.hiders@[k2].correlated@.len() implies none_index(
                    self.variants@[#[trigger] self.hiders@[k2].correlated@[j].category as int]@,
                ) is Some by {
                    assert(old(self).wf_dep_entry(old(self).hiders@[k2]));
                    assert(old(self).wf_layer_id(old(self).hiders@[k2].correlated@[j]));
                }
            }
        }
        Ok(self.roll.cat_cnt)
    }

    /// Adds new trait variants to existing categories.  Errs when a named
    /// category does not exist or a batch entry is rejected; entries of the
    /// batch already processed stay applied, the state stays well-formed
    /// either way, and the surrounding execution environment is what
    /// discards the partial batch on an error.
    #[verifier::loop_isolation(false)]
    #[verifier::rlimit(60)]
    pub fn try_add_variants(&mut self, variants: &Vec<crate::layer::CategoryInfo>) -> (r: Result<
        (),
        ServerError,
    >)
        requires
            old(self).wf(),
        ensures
            final(self).wf(),
            final(self).cat_cnt() == old(self).cat_cnt(),
            final(self).roll == old(self).roll,
            final(self).depends == old(self).depends,
            final(self).hiders == old(self).hiders,
            final(self).gene_ledger == old(self).gene_ledger,
            forall|i: int|
                0 <= i < old(self).cat_cnt() ==> (#[trigger] final(self).variants@[i])@.len()
                    >= old(self).variants@[i]@.len() && (forall|v: int|
                    0 <= v < old(self).variants@[i]@.len()
                        ==> final(self).variants@[i]@[v] == old(self).variants@[i]@[v]),
        decreases 0int,
    {
        let mut k: usize = 0;
        while k < variants.len()
            invariant
                k <= variants@.len(),
                self.wf(),
                self.cat_cnt() == old(self).cat_cnt(),
                self.roll == old(self).roll,
                self.depends == old(self).depends,
                self.hiders == old(self).hiders,
                self.gene_ledger == old(self).gene_ledger,
                forall|i: int|
                    0 <= i < old(self).cat_cnt() ==> (#[trigger] self.variants@[i])@.len() >= old(
                        self,
                    ).variants@[i]@.len() && (forall|v: int|
                        0 <= v < old(self).variants@[i]@.len() ==> self.variants@[i]@[v] == old(
                            self,
                        ).variants@[i]@[v]),
            decreases variants@.len() - k,
        {
            let cat_inf = &variants[k];
            let cat_idx = match find_category(&self.categories, cat_inf.name.as_str()) {
                Some(i) => i as usize,
                None => {
                    return Err(ServerError::CategoryNameNotFound { name: cat_inf.name.clone() });
                },
            };
            proof {
                crate::state::lemma_category_index_in_range(self.categories@, cat_inf.name@);
                assert(self.categories@[cat_idx as int].wf(
                    self.variants@[cat_idx as int]@.len() as int,
                ));
            }
            match self.add_to_category(cat_idx, cat_inf) {
                Ok(()) => {},
                Err(e) => {
                    return Err(e);
                },
            }
            k = k + 1;
        }
        Ok(())
    }

    /// Appends the variants of one description to the category at `cat_idx`.
    #[verifier::loop_isolation(false)]
    #[verifier::rlimit(60)]
    fn add_to_category(&mut self, cat_idx: usize, cat_inf: &crate::layer::CategoryInfo) -> (r:
        Result<(), ServerError>)
        requires
            old(self).wf(),
            cat_idx < old(self).cat_cnt(),
        ensures
            final(self).wf(),
            final(self).cat_cnt() == old(self).cat_cnt(),
            final(self).roll == old(self).roll,
            final(self).depends == old(self).depends,
            final(self).hiders == old(self).hiders,
            final(self).gene_ledger == old(self).gene_ledger,
            forall|i: int|
                0 <= i < old(self).cat_cnt() && i != cat_idx ==> final(self).variants@[i] == old(
                    self,
                ).variants@[i] && final(self).categories@[i] == old(self).categories@[i],
            final(self).variants@[cat_idx as int]@.len() >= old(self).variants@[cat_idx as int]@.len(),
            forall|v: int|
                0 <= v < old(self).variants@[cat_idx as int]@.len()
                    ==> final(self).variants@[cat_idx as int]@[v]
                    == old(self).variants@[cat_idx as int]@[v],
    {
        proof {
            assert(old(self).categories@[cat_idx as int].wf(
                old(self).variants@[cat_idx as int]@.len() as int,
            ));
        }
        let mut vars: Vec<Variant> = Vec::new();
        let mut cat = Category {
            name: String::new(),
            forced_cyclops: None,
            forced_jawless: None,
            normal_weights: Vec::new(),
            jawless_weights: None,
            cyclops_weights: None,
        };
        self.variants.set_and_swap(cat_idx, &mut vars);
        self.categories.set_and_swap(cat_idx, &mut cat);
        let none_fc: Option<String> = None;
        let none_fj: Option<String> = None;
        let res = add_variants(
            &mut vars,
            &cat_inf.variants,
            &mut cat.normal_weights,
            &mut cat.jawless_weights,
            &mut cat.cyclops_weights,
            &none_fc,
            &none_fj,
            cat_inf.name.as_str(),
        );
        self.variants.set_and_swap(cat_idx, &mut vars);
        self.categories.set_and_swap(cat_idx, &mut cat);
        proof {
            assert(self.variants@ =~= old(self).variants@.update(
                cat_idx as int,
                self.variants@[cat_idx as int],
            ));
            assert(self.categories@ =~= old(self).categories@.update(
                cat_idx as int,
                self.categories@[cat_idx as int],
            ));
        }
        match res {
            Ok(_) => {
                proof {
                    crate::sampler::lemma_weight_sum_bounds(
                        cat_inf.variants@.map_values(|v: VariantInfo| v.normal_weight),
                    );
                    assert(self.categories@[cat_idx as int].wf(
                        self.variants@[cat_idx as int]@.len() as int,
                    ));
                    if none_index(old(self).variants@[cat_idx as int]@) is Some {
                        lemma_none_extends(
                            old(self).variants@[cat_idx as int]@,
                            self.variants@[cat_idx as int]@,
                        );
                    }
                    lemma_re_wf(*old(self), *self, cat_idx as int);
                }
                Ok(())
            },
            Err(e) => {
                proof {
                    assert(self.variants@ =~= old(self).variants@);
                    assert(self.categories@ =~= old(self).categories@);
                    lemma_re_wf(*old(self), *self, cat_idx as int);
                }
                Err(e)
            },
        }
    }
}

/// A state whose single touched category stays well-formed is well-formed.
pub proof fn lemma_re_wf(pre: ServerState, post: ServerState, touched: int)
    requires
        pre.wf(),
        post.cat_cnt() == pre.cat_cnt(),
        post.categories@.len() == pre.categories@.len(),
        post.variants@.len() == pre.variants@.len(),
        post.roll == pre.roll,
        post.depends == pre.depends,
        post.hiders == pre.hiders,
        0 <= touched < pre.cat_cnt(),
        forall|i: int|
            0 <= i < pre.cat_cnt() && i != touched ==> post.categories@[i] == pre.categories@[i]
                && post.variants@[i] == pre.variants@[i],
        post.categories@[touched].wf(post.variants@[touched]@.len() as int),
        post.variants@[touched]@.len() >= pre.variants@[touched]@.len(),
        none_index(pre.variants@[touched]@) is Some ==> none_index(
            post.variants@[touched]@,
        ) is Some,
    ensures
        post.wf(),
{
    assert forall|i: int| 0 <= i < post.cat_cnt() implies (#[trigger] post.categories@[i]).wf(
        post.variants@[i]@.len() as int,
    ) by {
        if i != touched {
            assert(pre.categories@[i].wf(pre.variants@[i]@.len() as int));
        }
    }
    assert forall|k: int| 0 <= k < post.depends@.len() implies post.wf_dep_entry(
        #[trigger] post.depends@[k],
    ) by {
        assert(pre.wf_dep_entry(pre.depends@[k]));
        assert forall|j: int|
            0 <= j < post.depends@[k].correlated@.len() implies #[trigger] post.wf_layer_id(
            post.depends@[k].correlated@[j],
        ) && post.depends@[k].correlated@[j].category != post.depends@[k].id.category by {
            assert(pre.wf_layer_id(pre.depends@[k].correlated@[j]));
        }
    }
    assert forall|k: int| 0 <= k < post.hiders@.len() implies post.wf_dep_entry(
        #[trigger] post.hiders@[k],
    ) by {
        assert(pre.wf_dep_entry(pre.hiders@[k]));
        assert forall|j: int|
            0 <= j < post.hiders@[k].correlated@.len() implies #[trigger] post.wf_layer_id(
            post.hiders@[k].correlated@[j],
        ) && post.hiders@[k].correlated@[j].category != post.hiders@[k].id.category by {
            assert(pre.wf_layer_id(pre.hiders@[k].correlated@[j]));
        }
    }
    assert(post.wf_hider_targets()) by {
        assert forall|k: int, j: int|
            0 <= k < post.hiders@.len() && 0 <= j
                < post.hiders@[k].correlated@.len() implies none_index(
            post.variants@[#[trigger] post.hiders@[k].correlated@[j].category as int]@,
        ) is Some by {
            assert(pre.wf_dep_entry(pre.hiders@[k]));
            assert(pre.wf_layer_id(pre.hiders@[k].correlated@[j]));
        }
    }
}

/// Extending a variant list can only keep (or create) its `None` variant.
pub proof fn lemma_none_extends(pre: Seq<Variant>, post: Seq<Variant>)
    requires
        post.len() >= pre.len(),
        forall|v: int| 0 <= v < pre.len() ==> post[v] == pre[v],
        none_index(pre) is Some,
    ensures
        none_index(post) is Some,
{
    lemma_variant_index_prefix(pre, post, "None"@);
}

/// A name found in a prefix is found in the whole list.
pub proof fn lemma_variant_index_prefix(pre: Seq<Variant>, post: Seq<Variant>, name: Seq<char>)
    requires
        post.len() >= pre.len(),
        forall|v: int| 0 <= v < pre.len() ==> post[v] == pre[v],
        variant_index(pre, name) is Some,
    ensures
        variant_index(post, name) is Some,
    decreases pre.len(),
{
    if pre.len() > 0 {
        if pre[0].name@ == name {
        } else {
            assert forall|v: int| 0 <= v < pre.skip(1).len() implies post.skip(1)[v] == pre.skip(
                1,
            )[v] by {
                assert(pre.skip(1)[v] == pre[v + 1]);
                assert(post.skip(1)[v] == post[v + 1]);
            }
            lemma_variant_index_prefix(pre.skip(1), post.skip(1), name);
        }
    }
}


/// A variant list that holds some variant with this name resolves it.
pub proof fn lemma_variant_index_exists(vars: Seq<Variant>, name: Seq<char>, i: int)
    requires
        0 <= i < vars.len(),
        vars[i].name@ == name,
    ensures
        variant_index(vars, name) is Some,
    decreases vars.len(),
{
    if vars.len() > 0 && vars[0].name@ != name {
        assert(vars.skip(1)[i - 1] == vars[i]);
        lemma_variant_index_exists(vars.skip(1), name, i - 1);
    }
}

impl ServerState {
    /// Changes the name, the forced variants or the weight tables of an
    /// existing trait category.  Errs — changing nothing — when the
    /// category does not exist, a new name collides, a forced variant name
    /// is unknown, or a replacement table has the wrong length or sums to
    /// zero.
    #[verifier::loop_isolation(false)]
    #[verifier::rlimit(60)]
    pub fn try_modify_category(
        &mut self,
        name: &str,
        new_name: &Option<String>,
        forced_variants: &Option<crate::layer::ForcedVariants>,
        weights: &Option<crate::layer::Weights>,
    ) -> (r: Result<(), ServerError>)
        requires
            old(self).wf(),
        ensures
            final(self).wf(),
            final(self).cat_cnt() == old(self).cat_cnt(),
            final(self).roll == old(self).roll,
            final(self).depends == old(self).depends,
            final(self).hiders == old(self).hiders,
            final(self).gene_ledger == old(self).gene_ledger,
            final(self).variants == old(self).variants,
            match r {
                Ok(()) => {
                    &&& category_index(old(self).categories@, name@) is Some
                    &&& forall|i: int|
                        0 <= i < old(self).cat_cnt() && i != category_index(
                            old(self).categories@,
                            name@,
                        ).unwrap() ==> final(self).categories@[i] == old(self).categories@[i]
                    &&& ({
                        let idx = category_index(old(self).categories@, name@).unwrap();
                        let oldcat = old(self).categories@[idx];
                        let newcat = final(self).categories@[idx];
                        &&& newcat.name == (match new_name {
                            Some(n) => *n,
                            None => oldcat.name,
                        })
                        &&& (forced_variants is None ==> newcat.forced_cyclops
                            == oldcat.forced_cyclops && newcat.forced_jawless
                            == oldcat.forced_jawless)
                        &&& (weights is None ==> newcat.normal_weights@ == oldcat.normal_weights@
                            && (match oldcat.jawless_weights {
                            Some(ow) => match newcat.jawless_weights {
                                Some(w) => w@ == ow@,
                                None => false,
                            },
                            None => newcat.jawless_weights is None,
                        }) && (match oldcat.cyclops_weights {
                            Some(ow) => match newcat.cyclops_weights {
                                Some(w) => w@ == ow@,
                                None => false,
                            },
                            None => newcat.cyclops_weights is None,
                        }))
                    })
                },
                Err(_) => final(self).categories@ == old(self).categories@,
            },
    {
        let cat_idx = match find_category(&self.categories, name) {
            Some(i) => i as usize,
            None => {
                return Err(ServerError::CategoryNameNotFound { name: name.to_owned() });
            },
        };
        proof {
            crate::state::lemma_category_index_in_range(self.categories@, name@);
            assert(old(self).categories@[cat_idx as int].wf(
                old(self).variants@[cat_idx as int]@.len() as int,
            ));
        }
        let vlen = self.variants[cat_idx].len();
        // build the updated category aside, validating as we go
        let old_cat = &self.categories[cat_idx];
        let mut cat = Category {
            name: old_cat.name.clone(),
            forced_cyclops: old_cat.forced_cyclops,
            forced_jawless: old_cat.forced_jawless,
            normal_weights: Vec::new(),
            jawless_weights: None,
            cyclops_weights: None,
        };
        append_u16(&mut cat.normal_weights, &old_cat.normal_weights);
        match &old_cat.jawless_weights {
            Some(w) => {
                let mut nw: Vec<u16> = Vec::new();
                append_u16(&mut nw, w);
                cat.jawless_weights = Some(nw);
            },
            None => {},
        }
        match &old_cat.cyclops_weights {
            Some(w) => {
                let mut nw: Vec<u16> = Vec::new();
                append_u16(&mut nw, w);
                cat.cyclops_weights = Some(nw);
            },
            None => {},
        }
        match new_name {
            Some(n) => {
                if !crate::state::str_eq(n.as_str(), name) {
                    if find_category(&self.categories, n.as_str()).is_some() {
                        return Err(ServerError::CategoryExists { name: n.clone() });
                    }
                }
                cat.name = n.clone();
            },
            None => {},
        }
        match forced_variants {
            Some(forced) => {
                cat.forced_cyclops = match &forced.forced_cyclops {
                    Some(f) => {
                        match find_variant(&self.variants[cat_idx], f.as_str()) {
                            Some(v) => {
                                proof {
                                    crate::state::lemma_variant_index_in_range(
                                        self.variants@[cat_idx as int]@,
                                        f@,
                                    );
                                }
                                Some(v)
                            },
                            None => {
                                return Err(
                                    ServerError::VariantNameNotFound {
                                        category: name.to_owned(),
                                        name: f.clone(),
                                    },
                                );
                            },
                        }
                    },
                    None => None,
                };
                cat.forced_jawless = match &forced.forced_jawless {
                    Some(f) => {
                        match find_variant(&self.variants[cat_idx], f.as_str()) {
                            Some(v) => {
                                proof {
                                    crate::state::lemma_variant_index_in_range(
                                        self.variants@[cat_idx as int]@,
                                        f@,
                                    );
                                }
                                Some(v)
                            },
                            None => {
                                return Err(
                                    ServerError::VariantNameNotFound {
                                        category: name.to_owned(),
                                        name: f.clone(),
                                    },
                                );
                            },
                        }
                    },
                    None => None,
                };
            },
            None => {},
        }
        match weights {
            Some(new_wgts) => {
                let bad_len = new_wgts.normal_weights.len() != vlen || (match
                    &new_wgts.jawless_weights {
                    Some(w) => w.len() != vlen,
                    None => false,
                }) || (match &new_wgts.cyclops_weights {
                    Some(w) => w.len() != vlen,
                    None => false,
                });
                if bad_len {
                    return Err(ServerError::WeightTableLength);
                }
                if sum_weights(new_wgts.normal_weights.as_slice()) == 0 {
                    return Err(ServerError::WeightTableZero { name: name.to_owned() });
                }
                let jawless_zero = match &new_wgts.jawless_weights {
                    Some(w) => sum_weights(w.as_slice()) == 0,
                    None => false,
                };
                let cyclops_zero = match &new_wgts.cyclops_weights {
                    Some(w) => sum_weights(w.as_slice()) == 0,
                    None => false,
                };
                if jawless_zero || cyclops_zero {
                    return Err(ServerError::WeightTableZero { name: name.to_owned() });
                }
                let mut nn: Vec<u16> = Vec::new();
                append_u16(&mut nn, &new_wgts.normal_weights);
                cat.normal_weights = nn;
                cat.jawless_weights = match &new_wgts.jawless_weights {
                    Some(w) => {
                        let mut nw: Vec<u16> = Vec::new();
                        append_u16(&mut nw, w);
                        Some(nw)
                    },
                    None => None,
                };
                cat.cyclops_weights = match &new_wgts.cyclops_weights {
                    Some(w) => {
                        let mut nw: Vec<u16> = Vec::new();
                        append_u16(&mut nw, w);
                        Some(nw)
                    },
                    None => None,
                };
            },
            None => {},
        }
        proof {
            match weights {
                Some(_) => {},
                None => {
                    assert(cat.normal_weights@ =~= old(self).categories@[
                        cat_idx as int
                    ].normal_weights@);
                },
            }
            assert(cat.wf(vlen as int));
        }
        self.categories.set_and_swap(cat_idx, &mut cat);
        proof {
            assert(self.categories@ =~= old(self).categories@.update(
                cat_idx as int,
                self.categories@[cat_idx as int],
            ));
            lemma_re_wf(*old(self), *self, cat_idx as int);
        }
        Ok(())
    }
}

impl LayerId {
    /// Resolves a name-keyed layer id to its index-keyed form.  Errs
    /// exactly when the category or the variant name does not exist.
    pub fn to_stored(&self, state: &ServerState) -> (r: Result<StoredLayerId, ServerError>)
        requires
            state.wf(),
        ensures
            match r {
                Ok(id) => {
                    &&& category_index(state.categories@, self.category@) == Some(
                        id.category as int,
                    )
                    &&& variant_index(state.variants@[id.category as int]@, self.variant@) == Some(
                        id.variant as int,
                    )
                    &&& state.wf_layer_id(id)
                },
                Err(_) => category_index(state.categories@, self.category@) is None || (
                variant_index(
                    state.variants@[category_index(state.categories@, self.category@).unwrap()]@,
                    self.variant@,
                ) is None),
            },
    {
        let cat_idx = match find_category(&state.categories, self.category.as_str()) {
            Some(i) => i,
            None => {
                return Err(ServerError::CategoryNameNotFound { name: self.category.clone() });
            },
        };
        proof {
            crate::state::lemma_category_index_in_range(state.categories@, self.category@);
            assert(state.categories@[cat_idx as int].wf(
                state.variants@[cat_idx as int]@.len() as int,
            ));
        }
        let var_idx = match find_variant(&state.variants[cat_idx as usize], self.variant.as_str()) {
            Some(v) => v,
            None => {
                return Err(
                    ServerError::VariantNameNotFound {
                        category: self.category.clone(),
                        name: self.variant.clone(),
                    },
                );
            },
        };
        proof {
            crate::state::lemma_variant_index_in_range(
                state.variants@[cat_idx as int]@,
                self.variant@,
            );
        }
        Ok(StoredLayerId { category: cat_idx, variant: var_idx })
    }
}

impl StoredLayerId {
    /// Resolves an index-keyed layer id back to category and variant
    /// names.  Errs exactly when an index is out of range.
    pub fn to_display(&self, state: &ServerState) -> (r: Result<LayerId, ServerError>)
        requires
            state.wf(),
        ensures
            match r {
                Ok(l) => state.wf_layer_id(*self) && l.category@
                    == state.categories@[self.category as int].name@ && l.variant@
                    == state.variants@[self.category as int]@[self.variant as int].name@,
                Err(_) => !state.wf_layer_id(*self),
            },
    {
        if (self.category as usize) >= state.categories.len() {
            return Err(ServerError::CategoryIndexOutOfBounds { count: state.roll.cat_cnt });
        }
        proof {
            assert(state.categories@[self.category as int].wf(
                state.variants@[self.category as int]@.len() as int,
            ));
        }
        if (self.variant as usize) >= state.variants[self.category as usize].len() {
            return Err(ServerError::CategoryIndexOutOfBounds { count: state.roll.cat_cnt });
        }
        Ok(
            LayerId {
                category: state.categories[self.category as usize].name.clone(),
                variant:
                    state.variants[self.category as usize][self.variant as usize].name.clone(),
            },
        )
    }
}

impl Dependencies {
    /// Resolves a name-keyed graph entry to its index-keyed form: the
    /// source id and every correlated pair become exactly the indices
    /// their category and variant names resolve to.  Errs exactly when
    /// some name does not resolve.
    #[verifier::loop_isolation(false)]
    pub fn to_stored(&self, state: &ServerState) -> (r: Result<StoredDependencies, ServerError>)
        requires
            state.wf(),
        ensures
            match r {
                Ok(d) => {
                    &&& state.wf_layer_id(d.id)
                    &&& category_index(state.categories@, self.id.category@) == Some(
                        d.id.category as int,
                    )
                    &&& variant_index(state.variants@[d.id.category as int]@, self.id.variant@)
                        == Some(d.id.variant as int)
                    &&& d.correlated@.len() == self.correlated@.len()
                    &&& forall|j: int|
                        0 <= j < d.correlated@.len() ==> state.wf_layer_id(
                            #[trigger] d.correlated@[j],
                        ) && category_index(
                            state.categories@,
                            self.correlated@[j].category@,
                        ) == Some(d.correlated@[j].category as int) && variant_index(
                            state.variants@[d.correlated@[j].category as int]@,
                            self.correlated@[j].variant@,
                        ) == Some(d.correlated@[j].variant as int)
                },
                Err(_) => true,
            },
    {
        let id = match self.id.to_stored(state) {
            Ok(i) => i,
            Err(e) => {
                return Err(e);
            },
        };
        let mut correlated: Vec<StoredLayerId> = Vec::new();
        let mut j: usize = 0;
        while j < self.correlated.len()
            invariant
                j <= self.correlated@.len(),
                correlated@.len() == j,
                forall|q: int|
                    0 <= q < j ==> state.wf_layer_id(#[trigger] correlated@[q]) && category_index(
                        state.categories@,
                        self.correlated@[q].category@,
                    ) == Some(correlated@[q].category as int) && variant_index(
                        state.variants@[correlated@[q].category as int]@,
                        self.correlated@[q].variant@,
                    ) == Some(correlated@[q].variant as int),
            decreases self.correlated@.len() - j,
        {
            let c = match self.correlated[j].to_stored(state) {
                Ok(i) => i,
                Err(e) => {
                    return Err(e);
                },
            };
            correlated.push(c);
            j = j + 1;
        }
        Ok(StoredDependencies { id, correlated })
    }
}

/// The operations on a graph entry list.
pub enum Action {
    Add,
    Remove,
    Modify,
}

/// Whether the entry is drawn from `a` or from `b`.
pub open spec fn entry_from(
    e: StoredDependencies,
    a: Seq<StoredDependencies>,
    b: Seq<StoredDependencies>,
) -> bool {
    ||| exists|q: int| 0 <= q < a.len() && e == #[trigger] a[q]
    ||| exists|q: int| 0 <= q < b.len() && e == #[trigger] b[q]
}

/// Every entry of `list` is drawn from `a` or from `b`.
pub open spec fn entries_from(
    list: Seq<StoredDependencies>,
    a: Seq<StoredDependencies>,
    b: Seq<StoredDependencies>,
) -> bool {
    forall|k: int| 0 <= k < list.len() ==> entry_from(#[trigger] list[k], a, b)
}

/// A list is drawn from itself.
pub proof fn lemma_entries_refl(
    list: Seq<StoredDependencies>,
    b: Seq<StoredDependencies>,
)
    ensures
        entries_from(list, list, b),
{
    assert forall|k: int| 0 <= k < list.len() implies entry_from(#[trigger] list[k], list, b) by {
        assert(list[k] == list[k]);
    }
}

/// Widening the second source keeps the property.
pub proof fn lemma_entries_widen(
    list: Seq<StoredDependencies>,
    a: Seq<StoredDependencies>,
    b: Seq<StoredDependencies>,
)
    requires
        entries_from(list, a, Seq::empty()),
    ensures
        entries_from(list, a, b),
{
    assert forall|k: int| 0 <= k < list.len() implies entry_from(#[trigger] list[k], a, b) by {
        assert(entry_from(list[k], a, Seq::empty()));
        let q = choose|q: int| 0 <= q < a.len() && list[k] == a[q];
        assert(list[k] == a[q]);
    }
}

/// Every entry among the first `upto` modifications whose source is not
/// listed again later stands in the list as given.
pub open spec fn mods_applied(
    list: Seq<StoredDependencies>,
    mods: Seq<StoredDependencies>,
    upto: int,
) -> bool {
    forall|q: int|
        #![trigger mods[q]]
        0 <= q < upto && (forall|q2: int|
            q < q2 < mods.len() ==> (#[trigger] mods[q2]).id != mods[q].id) ==> exists|k: int|
            0 <= k < list.len() && #[trigger] list[k] == mods[q]
}

/// Every listed source id has an entry in the list.
pub open spec fn ids_present(list: Seq<StoredDependencies>, new: Seq<StoredDependencies>, upto: int) -> bool {
    forall|q: int|
        0 <= q < upto ==> exists|k: int|
            0 <= k < list.len() && (#[trigger] new[q]).id == list[k].id
}

/// Appends the entries whose source variant has no entry yet; an entry for
/// a source that already has one is silently skipped, as when it was first
/// registered.  Afterwards every listed source id has an entry, and the
/// pre-existing entries are kept in place.
#[verifier::loop_isolation(false)]
pub fn add_dependencies(list: &mut Vec<StoredDependencies>, new: Vec<StoredDependencies>)
    ensures
        final(list)@.len() >= old(list)@.len(),
        forall|k: int| 0 <= k < old(list)@.len() ==> final(list)@[k] == old(list)@[k],
        entries_from(final(list)@, old(list)@, new@),
        ids_present(final(list)@, new@, new@.len() as int),
{
    let ghost new0 = new@;
    proof {
        lemma_entries_refl(list@, new0);
    }
    let mut rest = new;
    let ghost done = 0int;
    while rest.len() > 0
        invariant
            rest@ == new0.skip(done),
            0 <= done <= new0.len(),
            list@.len() >= old(list)@.len(),
            forall|k: int| 0 <= k < old(list)@.len() ==> list@[k] == old(list)@[k],
            entries_from(list@, old(list)@, new0),
            ids_present(list@, new0, done),
        decreases rest@.len(),
    {
        let d = rest.remove(0);
        proof {
            assert(d == new0[done]);
            assert(rest@ =~= new0.skip(done + 1));
        }
        match find_dep(list, d.id.category, d.id.variant) {
            Some(at) => {
                proof {
                    crate::layer::lemma_first_dep_member(
                        list@,
                        StoredLayerId { category: d.id.category, variant: d.id.variant },
                    );
                    assert(new0[done].id == list@[at as int].id);
                    assert(ids_present(list@, new0, done + 1));
                }
            },
            None => {
                let ghost pre = list@;
                list.push(d);
                proof {
                    assert forall|k: int| 0 <= k < list@.len() implies entry_from(
                        #[trigger] list@[k],
                        old(list)@,
                        new0,
                    ) by {
                        if k == list@.len() - 1 {
                            assert(list@[k] == new0[done]);
                        }
                    }
                    assert forall|q: int| 0 <= q < done + 1 implies exists|k: int|
                        0 <= k < list@.len() && (#[trigger] new0[q]).id == list@[k].id by {
                        if q < done {
                            assert(ids_present(pre, new0, done));
                            let k = choose|k: int|
                                0 <= k < pre.len() && (#[trigger] new0[q]).id == pre[k].id;
                            assert(new0[q].id == list@[k].id);
                        } else {
                            assert(new0[q].id == list@[list@.len() - 1].id);
                        }
                    }
                }
            },
        }
        proof {
            done = done + 1;
        }
    }
}

/// The entries that survive a removal list: exactly the unlisted ones,
/// in their original order.
pub open spec fn surviving(
    list: Seq<StoredDependencies>,
    remove: Seq<StoredDependencies>,
) -> Seq<StoredDependencies>
    decreases list.len(),
{
    if list.len() == 0 {
        list
    } else {
        let rest = surviving(list.drop_last(), remove);
        if first_dep(remove, list.last().id) is None {
            rest.push(list.last())
        } else {
            rest
        }
    }
}

/// Removes every entry whose source id stands in the removal list: the
/// result is exactly the unlisted entries, in their original order.
#[verifier::loop_isolation(false)]
pub fn remove_dependencies(list: &mut Vec<StoredDependencies>, remove: &Vec<StoredDependencies>)
    ensures
        final(list)@.len() <= old(list)@.len(),
        entries_from(final(list)@, old(list)@, Seq::empty()),
        final(list)@ == surviving(old(list)@, remove@),
{
    let mut kept: Vec<StoredDependencies> = Vec::new();
    let ghost orig = list@;
    let ghost done = 0int;
    proof {
        assert(orig.take(0) =~= Seq::<StoredDependencies>::empty());
    }
    while list.len() > 0
        invariant
            list@ == orig.skip(done),
            0 <= done <= orig.len(),
            kept@.len() <= done,
            entries_from(kept@, orig, Seq::empty()),
            kept@ == surviving(orig.take(done), remove@),
        decreases list@.len(),
    {
        let d = list.remove(0);
        proof {
            assert(d == orig[done]);
            assert(list@ =~= orig.skip(done + 1));
            assert(orig.take(done + 1).drop_last() =~= orig.take(done));
            assert(orig.take(done + 1).last() == orig[done]);
        }
        if find_dep(remove, d.id.category, d.id.variant).is_none() {
            proof {
                assert(StoredLayerId { category: d.id.category, variant: d.id.variant } == d.id);
            }
            kept.push(d);
            proof {
                assert forall|k: int| 0 <= k < kept@.len() implies entry_from(
                    #[trigger] kept@[k],
                    orig,
                    Seq::empty(),
                ) by {
                    if k == kept@.len() - 1 {
                        assert(kept@[k] == orig[done]);
                    }
                }
                assert(kept@ =~= surviving(orig.take(done + 1), remove@));
            }
        } else {
            proof {
                assert(StoredLayerId { category: d.id.category, variant: d.id.variant } == d.id);
                assert(kept@ =~= surviving(orig.take(done + 1), remove@));
            }
        }
        proof {
            done = done + 1;
        }
    }
    proof {
        assert(orig.take(orig.len() as int) =~= orig);
    }
    *list = kept;
}

/// Replaces the entry of every listed source variant.  Errs — changing
/// nothing — exactly when some listed variant has no entry to replace; on
/// success every listed entry (its batch's last form, when a source is
/// listed twice) stands in the list, and every slot keeps its source id.
#[verifier::loop_isolation(false)]
pub fn modify_dependencies(list: &mut Vec<StoredDependencies>, mods: Vec<StoredDependencies>) -> (r:
    Result<(), ServerError>)
    ensures
        final(list)@.len() == old(list)@.len(),
        entries_from(final(list)@, old(list)@, mods@),
        forall|k: int| 0 <= k < old(list)@.len() ==> final(list)@[k].id == old(list)@[k].id,
        r is Ok ==> forall|q: int|
            0 <= q < mods@.len() ==> first_dep(old(list)@, (#[trigger] mods@[q]).id) is Some,
        r is Ok ==> mods_applied(final(list)@, mods@, mods@.len() as int),
        r is Err ==> *final(list) == *old(list) && (r matches Err(e) && (e matches
            ServerError::DependencyNotFound { id } && first_dep(old(list)@, id) is None)),
{
    // validate the whole batch before touching anything
    let mut k: usize = 0;
    while k < mods.len()
        invariant
            k <= mods@.len(),
            forall|q: int|
                0 <= q < k ==> first_dep(list@, (#[trigger] mods@[q]).id) is Some,
        decreases mods@.len() - k,
    {
        if find_dep(list, mods[k].id.category, mods[k].id.variant).is_none() {
            proof {
                assert(StoredLayerId {
                    category: mods@[k as int].id.category,
                    variant: mods@[k as int].id.variant,
                } == mods@[k as int].id);
            }
            return Err(ServerError::DependencyNotFound { id: mods[k].id });
        }
        proof {
            assert(StoredLayerId {
                category: mods@[k as int].id.category,
                variant: mods@[k as int].id.variant,
            } == mods@[k as int].id);
        }
        k = k + 1;
    }
    let ghost mods0 = mods@;
    proof {
        lemma_entries_refl(list@, mods0);
    }
    let mut rest = mods;
    let ghost done = 0int;
    while rest.len() > 0
        invariant
            rest@ == mods0.skip(done),
            0 <= done <= mods0.len(),
            list@.len() == old(list)@.len(),
            entries_from(list@, old(list)@, mods0),
            forall|k2: int|
                0 <= k2 < old(list)@.len() ==> (#[trigger] list@[k2]).id == old(list)@[k2].id,
            mods_applied(list@, mods0, done),
        decreases rest@.len(),
    {
        let d = rest.remove(0);
        proof {
            assert(d == mods0[done]);
            assert(rest@ =~= mods0.skip(done + 1));
        }
        let ghost pre_apply = list@;
        match find_dep(list, d.id.category, d.id.variant) {
            Some(i) => {
                proof {
                    crate::layer::lemma_first_dep_member(
                        list@,
                        StoredLayerId { category: d.id.category, variant: d.id.variant },
                    );
                    assert(list@[i as int].id == d.id);
                }
                let mut entry = d;
                list.set_and_swap(i, &mut entry);
                proof {
                    assert forall|k2: int| 0 <= k2 < list@.len() implies entry_from(
                        #[trigger] list@[k2],
                        old(list)@,
                        mods0,
                    ) by {
                        if k2 == i as int {
                            assert(list@[k2] == mods0[done]);
                        }
                    }
                    assert forall|q: int|
                        #![trigger mods0[q]]
                        0 <= q < done + 1 && (forall|q2: int|
                            q < q2 < mods0.len() ==> (#[trigger] mods0[q2]).id
                                != mods0[q].id) implies exists|k2: int|
                        0 <= k2 < list@.len() && #[trigger] list@[k2] == mods0[q] by {
                        if q == done {
                            assert(list@[i as int] == mods0[q]);
                        } else {
                            assert(mods_applied(pre_apply, mods0, done));
                            let k2 = choose|k2: int|
                                0 <= k2 < pre_apply.len() && #[trigger] pre_apply[k2] == mods0[q];
                            if k2 == i as int {
                                assert(mods0[q].id == mods0[done as int].id);
                                assert(false);
                            }
                            assert(list@[k2] == mods0[q]);
                        }
                    }
                }
            },
            None => {
                proof {
                    crate::layer::lemma_first_dep_member(old(list)@, mods0[done].id);
                    match first_dep(old(list)@, mods0[done].id) {
                        Some(_) => {
                            let k2 = choose|k2: int|
                                0 <= k2 < old(list)@.len() && old(list)@[k2] == first_dep(
                                    old(list)@,
                                    mods0[done].id,
                                ).unwrap();
                            assert(list@[k2].id == mods0[done].id);
                            crate::layer::lemma_first_dep_present(list@, mods0[done].id, k2);
                            assert(StoredLayerId {
                                category: mods0[done].id.category,
                                variant: mods0[done].id.variant,
                            } == mods0[done].id);
                            assert(false);
                        },
                        None => {
                            assert(false);
                        },
                    }
                }
            },
        }
        proof {
            done = done + 1;
        }
    }
    Ok(())
}

impl ServerState {
    /// Resolves and validates a batch of name-keyed graph entries: no
    /// correlated pair may name its own source category, and an entry for
    /// the hider graph may only mask categories that have a `None` variant.
    #[verifier::loop_isolation(false)]
    fn resolve_dep_list(&self, update_list: &Vec<Dependencies>, is_required: bool) -> (r: Result<
        Vec<StoredDependencies>,
        ServerError,
    >)
        requires
            self.wf(),
        ensures
            match r {
                Ok(list) => forall|k: int|
                    0 <= k < list@.len() ==> self.wf_dep_entry(#[trigger] list@[k]) && (
                    !is_required ==> forall|j: int|
                        0 <= j < list@[k].correlated@.len() ==> none_index(
                            self.variants@[(#[trigger] list@[k].correlated@[j]).category as int]@,
                        ) is Some),
                Err(_) => true,
            },
    {
        let mut out: Vec<StoredDependencies> = Vec::new();
        let mut k: usize = 0;
        while k < update_list.len()
            invariant
                k <= update_list@.len(),
                out@.len() == k,
                forall|q: int|
                    0 <= q < k ==> self.wf_dep_entry(#[trigger] out@[q]) && (!is_required
                        ==> forall|j: int|
                        0 <= j < out@[q].correlated@.len() ==> none_index(
                            self.variants@[(#[trigger] out@[q].correlated@[j]).category as int]@,
                        ) is Some),
            decreases update_list@.len() - k,
        {
            let stored = match update_list[k].to_stored(self) {
                Ok(d) => d,
                Err(e) => {
                    return Err(e);
                },
            };
            let mut j: usize = 0;
            while j < stored.correlated.len()
                invariant
                    j <= stored.correlated@.len(),
                    self.wf(),
                    self.wf_layer_id(stored.id),
                    forall|q: int|
                        0 <= q < stored.correlated@.len() ==> self.wf_layer_id(
                            #[trigger] stored.correlated@[q],
                        ),
                    forall|q: int|
                        0 <= q < j ==> (#[trigger] stored.correlated@[q]).category
                            != stored.id.category && (!is_required ==> none_index(
                            self.variants@[stored.correlated@[q].category as int]@,
                        ) is Some),
                decreases stored.correlated@.len() - j,
            {
                let c = stored.correlated[j];
                if c.category == stored.id.category {
                    return Err(ServerError::SelfDependency { category: c.category });
                }
                if !is_required {
                    match self.none_variant_of(c.category) {
                        Ok(_) => {},
                        Err(e) => {
                            return Err(e);
                        },
                    }
                }
                j = j + 1;
            }
            out.push(stored);
            k = k + 1;
        }
        Ok(out)
    }

    /// Updates the dependency graph (`is_required`) or the hider graph:
    /// adds entries for variants that have none yet, removes entries, or
    /// replaces existing ones, after resolving all the names.  An error
    /// resolves or applies nothing.
    #[verifier::loop_isolation(false)]
    #[verifier::rlimit(60)]
    pub fn try_process_dep_list(
        &mut self,
        update_list: &Vec<Dependencies>,
        action: Action,
        is_required: bool,
    ) -> (r: Result<(), ServerError>)
        requires
            old(self).wf(),
        ensures
            final(self).wf(),
            final(self).categories == old(self).categories,
            final(self).variants == old(self).variants,
            final(self).roll == old(self).roll,
            final(self).gene_ledger == old(self).gene_ledger,
            is_required ==> final(self).hiders == old(self).hiders,
            !is_required ==> final(self).depends == old(self).depends,
            r is Err ==> final(self).depends == old(self).depends && final(self).hiders == old(
                self,
            ).hiders,
    {
        let resolved = match self.resolve_dep_list(update_list, is_required) {
            Ok(l) => l,
            Err(e) => {
                return Err(e);
            },
        };
        let ghost res0 = resolved@;
        let ghost pre = *self;
        let r = if is_required {
            match action {
                Action::Add => {
                    add_dependencies(&mut self.depends, resolved);
                    Ok(())
                },
                Action::Remove => {
                    remove_dependencies(&mut self.depends, &resolved);
                    Ok(())
                },
                Action::Modify => modify_dependencies(&mut self.depends, resolved),
            }
        } else {
            match action {
                Action::Add => {
                    add_dependencies(&mut self.hiders, resolved);
                    Ok(())
                },
                Action::Remove => {
                    remove_dependencies(&mut self.hiders, &resolved);
                    Ok(())
                },
                Action::Modify => modify_dependencies(&mut self.hiders, resolved),
            }
        };
        proof {
            let target = if is_required {
                self.depends@
            } else {
                self.hiders@
            };
            let before = if is_required {
                pre.depends@
            } else {
                pre.hiders@
            };
            match action {
                Action::Remove => {
                    lemma_entries_widen(target, before, res0);
                },
                _ => {
                    if r is Err {
                        lemma_entries_refl(target, res0);
                    }
                },
            }
            assert(entries_from(target, before, res0));
            assert forall|k: int| 0 <= k < self.depends@.len() implies self.wf_dep_entry(
                #[trigger] self.depends@[k],
            ) by {
                lemma_entry_sourced(*self, pre, self.depends@, pre.depends@, res0, k);
            }
            assert forall|k: int| 0 <= k < self.hiders@.len() implies self.wf_dep_entry(
                #[trigger] self.hiders@[k],
            ) by {
                lemma_entry_sourced(*self, pre, self.hiders@, pre.hiders@, res0, k);
            }
            assert(self.wf_hider_targets()) by {
                assert forall|k: int, j: int|
                    0 <= k < self.hiders@.len() && 0 <= j
                        < self.hiders@[k].correlated@.len() implies none_index(
                    self.variants@[#[trigger] self.hiders@[k].correlated@[j].category as int]@,
                ) is Some by {
                    if is_required {
                        assert(self.hiders@[k] == pre.hiders@[k]);
                        assert(pre.wf_dep_entry(pre.hiders@[k]));
                        assert(pre.wf_layer_id(pre.hiders@[k].correlated@[j]));
                    } else {
                        assert(entries_from(self.hiders@, pre.hiders@, res0));
                        let e = self.hiders@[k];
                        if exists|q: int| 0 <= q < pre.hiders@.len() && e == pre.hiders@[q] {
                            let q = choose|q: int|
                                0 <= q < pre.hiders@.len() && e == pre.hiders@[q];
                            assert(pre.wf_dep_entry(pre.hiders@[q]));
                            assert(pre.wf_layer_id(pre.hiders@[q].correlated@[j]));
                        } else {
                            let q = choose|q: int| 0 <= q < res0.len() && e == res0[q];
                        }
                    }
                }
            }
        }
        r
    }
}

/// An entry drawn from a well-formed list or from a validated batch is
/// well formed in the unchanged registry.
proof fn lemma_entry_sourced(
    post: ServerState,
    pre: ServerState,
    target: Seq<StoredDependencies>,
    before: Seq<StoredDependencies>,
    res0: Seq<StoredDependencies>,
    k: int,
)
    requires
        pre.wf(),
        post.categories == pre.categories,
        post.variants == pre.variants,
        post.roll == pre.roll,
        0 <= k < target.len(),
        entries_from(target, before, res0),
        forall|q: int| 0 <= q < before.len() ==> pre.wf_dep_entry(#[trigger] before[q]),
        forall|q: int| 0 <= q < res0.len() ==> pre.wf_dep_entry(#[trigger] res0[q]),
    ensures
        post.wf_dep_entry(target[k]),
{
    let e = target[k];
    if exists|q: int| 0 <= q < before.len() && e == before[q] {
        let q = choose|q: int| 0 <= q < before.len() && e == before[q];
        assert(pre.wf_dep_entry(before[q]));
    } else {
        let q = choose|q: int| 0 <= q < res0.len() && e == res0[q];
        assert(pre.wf_dep_entry(res0[q]));
    }
    assert(pre.wf_dep_entry(e));
    assert(pre.wf_layer_id(e.id));
    assert(post.wf_layer_id(e.id));
    assert forall|j: int| 0 <= j < e.correlated@.len() implies #[trigger] post.wf_layer_id(
        e.correlated@[j],
    ) && e.correlated@[j].category != e.id.category by {
        assert(pre.wf_layer_id(e.correlated@[j]));
    }
    assert(post.wf_dep_entry(e));
}

impl ServerState {
    /// Sets the layer categories to skip when rolling and the weighting of
    /// jawed against jawless skulls.  Errs — changing nothing — when a
    /// skip name does not resolve, a skipped category lacks its `None`
    /// variant, or the jaw weights would sum to zero.
    #[verifier::loop_isolation(false)]
    pub fn try_set_roll_config(
        &mut self,
        skip: &Option<Vec<String>>,
        jaw_weight: Option<u16>,
        jawless_weight: Option<u16>,
    ) -> (r: Result<(), ServerError>)
        requires
            old(self).wf(),
        ensures
            final(self).wf(),
            final(self).categories == old(self).categories,
            final(self).variants == old(self).variants,
            final(self).depends == old(self).depends,
            final(self).hiders == old(self).hiders,
            final(self).gene_ledger == old(self).gene_ledger,
            final(self).roll.cat_cnt == old(self).roll.cat_cnt,
            match r {
                Ok(()) => {
                    &&& match skip {
                        Some(names) => final(self).roll.skip@.len() == names@.len() && forall|
                            k: int,
                        |
                            0 <= k < names@.len() ==> category_index(
                                old(self).categories@,
                                (#[trigger] names@[k])@,
                            ) == Some(final(self).roll.skip@[k] as int),
                        None => final(self).roll.skip == old(self).roll.skip,
                    }
                    &&& final(self).roll.jaw_weights@.len() == 2
                    &&& final(self).roll.jaw_weights@[0] == (match jaw_weight {
                        Some(w) => w,
                        None => old(self).roll.jaw_weights@[0],
                    })
                    &&& final(self).roll.jaw_weights@[1] == (match jawless_weight {
                        Some(w) => w,
                        None => old(self).roll.jaw_weights@[1],
                    })
                },
                Err(e) => {
                    &&& final(self).roll == old(self).roll
                    &&& ({
                        ||| (e matches ServerError::CategoryNameNotFound { name }
                            && skip matches Some(names) && (exists|q: int|
                            0 <= q < names@.len() && (#[trigger] names@[q])@ == name@)
                            && category_index(old(self).categories@, name@) is None)
                        ||| (e matches ServerError::NoneVariantMissing { category }
                            && skip is Some && none_index(
                            old(self).variants@[category as int]@,
                        ) is None)
                        ||| (e matches ServerError::WeightTableZero { .. } && weight_sum(
                            seq![
                                match jaw_weight {
                                    Some(w) => w,
                                    None => old(self).roll.jaw_weights@[0],
                                },
                                match jawless_weight {
                                    Some(w) => w,
                                    None => old(self).roll.jaw_weights@[1],
                                },
                            ],
                        ) == 0)
                    })
                },
            },
    {
        // resolve and validate the new skip list first
        let mut new_skip: Vec<u8> = Vec::new();
        match skip {
            Some(names) => {
                let mut k: usize = 0;
                while k < names.len()
                    invariant
                        k <= names@.len(),
                        self.wf(),
                        new_skip@.len() == k,
                        forall|q: int|
                            0 <= q < k ==> category_index(self.categories@, names@[q]@) == Some(
                                (#[trigger] new_skip@[q]) as int,
                            ) && (new_skip@[q] as int) < self.cat_cnt() && none_index(
                                self.variants@[new_skip@[q] as int]@,
                            ) is Some,
                    decreases names@.len() - k,
                {
                    let idx = match find_category(&self.categories, names[k].as_str()) {
                        Some(i) => i,
                        None => {
                            return Err(
                                ServerError::CategoryNameNotFound { name: names[k].clone() },
                            );
                        },
                    };
                    proof {
                        crate::state::lemma_category_index_in_range(
                            self.categories@,
                            names@[k as int]@,
                        );
                    }
                    match self.none_variant_of(idx) {
                        Ok(_) => {},
                        Err(e) => {
                            return Err(e);
                        },
                    }
                    new_skip.push(idx);
                    k = k + 1;
                }
            },
            None => {},
        }
        // assemble and validate the jaw weight pair
        let jawed: u16 = match jaw_weight {
            Some(w) => w,
            None => self.roll.jaw_weights[0],
        };
        let jawless: u16 = match jawless_weight {
            Some(w) => w,
            None => self.roll.jaw_weights[1],
        };
        let mut pair: Vec<u16> = Vec::new();
        pair.push(jawed);
        pair.push(jawless);
        proof {
            assert(pair@ =~= seq![jawed, jawless]);
        }
        if sum_weights(pair.as_slice()) == 0 {
            proof {
                assert(seq![jawed, jawless] =~= seq![
                    match jaw_weight {
                        Some(w) => w,
                        None => old(self).roll.jaw_weights@[0],
                    },
                    match jawless_weight {
                        Some(w) => w,
                        None => old(self).roll.jaw_weights@[1],
                    },
                ]);
            }
            return Err(ServerError::WeightTableZero { name: "jaw".to_owned() });
        }
        // commit
        match skip {
            Some(_) => {
                self.roll.skip = new_skip;
            },
            None => {},
        }
        self.roll.jaw_weights = pair;
        proof {
            assert forall|k: int| 0 <= k < self.roll.skip@.len() implies (
            #[trigger] self.roll.skip@[k] as int) < self.cat_cnt() && none_index(
                self.variants@[self.roll.skip@[k] as int]@,
            ) is Some by {
                match skip {
                    Some(_) => {},
                    None => {
                        assert(old(self).roll.skip@[k] == self.roll.skip@[k]);
                    },
                }
            }
            assert forall|i: int| 0 <= i < self.cat_cnt() implies (
            #[trigger] self.categories@[i]).wf(self.variants@[i]@.len() as int) by {
                assert(old(self).categories@[i].wf(old(self).variants@[i]@.len() as int));
            }
            assert forall|k2: int| 0 <= k2 < self.depends@.len() implies self.wf_dep_entry(
                #[trigger] self.depends@[k2],
            ) by {
                assert(old(self).wf_dep_entry(old(self).depends@[k2]));
                assert forall|j: int|
                    0 <= j < self.depends@[k2].correlated@.len() implies #[trigger] self.wf_layer_id(
                    self.depends@[k2].correlated@[j],
                ) && self.depends@[k2].correlated@[j].category != self.depends@[k2].id.category by {
                    assert(old(self).wf_layer_id(old(self).depends@[k2].correlated@[j]));
                }
            }
            assert forall|k2: int| 0 <= k2 < self.hiders@.len() implies self.wf_dep_entry(
                #[trigger] self.hiders@[k2],
            ) by {
                assert(old(self).wf_dep_entry(old(self).hiders@[k2]));
                assert forall|j: int|
                    0 <= j < self.hiders@[k2].correlated@.len() implies #[trigger] self.wf_layer_id(
                    self.hiders@[k2].correlated@[j],
                ) && self.hiders@[k2].correlated@[j].category != self.hiders@[k2].id.category by {
                    assert(old(self).wf_layer_id(old(self).hiders@[k2].correlated@[j]));
                }
            }
            assert(self.wf_hider_targets()) by {
                assert forall|k2: int, j: int|
                    0 <= k2 < self.hiders@.len() && 0 <= j
                        < self.hiders@[k2].correlated@.len() implies none_index(
                    self.variants@[#[trigger] self.hiders@[k2].correlated@[j].category as int]@,
                ) is Some by {
                    assert(old(self).wf_dep_entry(old(self).hiders@[k2]));
                    assert(old(self).wf_layer_id(old(self).hiders@[k2].correlated@[j]));
                }
            }
        }
        Ok(())
    }

    /// Modifies existing trait variants: names, display names, payloads
    /// and weight entries, category by category.  A rejected entry leaves
    /// its own category untouched, though earlier categories of the batch
    /// stay applied; the state stays well-formed either way.
    #[verifier::loop_isolation(false)]
    pub fn try_modify_variants(&mut self, modifications: &Vec<crate::layer::VariantModInfo>) -> (r:
        Result<(), ServerError>)
        requires
            old(self).wf(),
        ensures
            final(self).wf(),
            final(self).cat_cnt() == old(self).cat_cnt(),
            final(self).roll == old(self).roll,
            final(self).depends == old(self).depends,
            final(self).hiders == old(self).hiders,
            final(self).gene_ledger == old(self).gene_ledger,
            forall|i: int|
                0 <= i < old(self).cat_cnt() ==> (#[trigger] final(self).variants@[i])@.len()
                    == old(self).variants@[i]@.len(),
    {
        let mut k: usize = 0;
        while k < modifications.len()
            invariant
                k <= modifications@.len(),
                self.wf(),
                self.cat_cnt() == old(self).cat_cnt(),
                self.roll == old(self).roll,
                self.depends == old(self).depends,
                self.hiders == old(self).hiders,
                self.gene_ledger == old(self).gene_ledger,
                forall|i: int|
                    0 <= i < old(self).cat_cnt() ==> (#[trigger] self.variants@[i])@.len() == old(
                        self,
                    ).variants@[i]@.len(),
            decreases modifications@.len() - k,
        {
            let cat_inf = &modifications[k];
            let cat_idx = match find_category(&self.categories, cat_inf.category.as_str()) {
                Some(i) => i as usize,
                None => {
                    return Err(
                        ServerError::CategoryNameNotFound { name: cat_inf.category.clone() },
                    );
                },
            };
            proof {
                crate::state::lemma_category_index_in_range(self.categories@, cat_inf.category@);
            }
            match self.modify_in_category(cat_idx, cat_inf) {
                Ok(()) => {},
                Err(e) => {
                    return Err(e);
                },
            }
            k = k + 1;
        }
        Ok(())
    }

    /// Applies the variant modifications of one category: the updated
    /// variant list and weight tables are built aside and committed only
    /// when every modification was accepted and every table still sums
    /// positive.
    #[verifier::loop_isolation(false)]
    #[verifier::rlimit(60)]
    fn modify_in_category(&mut self, cat_idx: usize, cat_inf: &crate::layer::VariantModInfo) -> (r:
        Result<(), ServerError>)
        requires
            old(self).wf(),
            cat_idx < old(self).cat_cnt(),
        ensures
            final(self).wf(),
            final(self).cat_cnt() == old(self).cat_cnt(),
            final(self).roll == old(self).roll,
            final(self).depends == old(self).depends,
            final(self).hiders == old(self).hiders,
            final(self).gene_ledger == old(self).gene_ledger,
            forall|i: int|
                0 <= i < old(self).cat_cnt() && i != cat_idx ==> final(self).variants@[i] == old(
                    self,
                ).variants@[i] && final(self).categories@[i] == old(self).categories@[i],
            final(self).variants@[cat_idx as int]@.len() == old(
                self,
            ).variants@[cat_idx as int]@.len(),
    {
        proof {
            assert(old(self).categories@[cat_idx as int].wf(
                old(self).variants@[cat_idx as int]@.len() as int,
            ));
        }
        // build the updated variant list and tables aside
        let mut vars: Vec<Variant> = copy_variants(&self.variants[cat_idx]);
        let old_cat = &self.categories[cat_idx];
        let mut normal: Vec<u16> = Vec::new();
        append_u16(&mut normal, &old_cat.normal_weights);
        let mut jawless: Option<Vec<u16>> = match &old_cat.jawless_weights {
            Some(w) => {
                let mut nw: Vec<u16> = Vec::new();
                append_u16(&mut nw, w);
                Some(nw)
            },
            None => None,
        };
        let mut cyclops: Option<Vec<u16>> = match &old_cat.cyclops_weights {
            Some(w) => {
                let mut nw: Vec<u16> = Vec::new();
                append_u16(&mut nw, w);
                Some(nw)
            },
            None => None,
        };
        let vlen = vars.len();
        proof {
            assert(vars@ =~= old(self).variants@[cat_idx as int]@);
        }
        let ghost none_was = none_index(old(self).variants@[cat_idx as int]@);
        let mut m: usize = 0;
        while m < cat_inf.modifications.len()
            invariant
                m <= cat_inf.modifications@.len(),
                vars@.len() == vlen,
                normal@.len() == vlen,
                match jawless {
                    Some(w) => w@.len() == vlen,
                    None => true,
                },
                match cyclops {
                    Some(w) => w@.len() == vlen,
                    None => true,
                },
                (jawless is Some) == (old(self).categories@[cat_idx as int].jawless_weights
                    is Some),
                (cyclops is Some) == (old(self).categories@[cat_idx as int].cyclops_weights
                    is Some),
                vlen == old(self).variants@[cat_idx as int]@.len(),
                *self == *old(self),
                none_was is Some ==> none_index(vars@) is Some,
            decreases cat_inf.modifications@.len() - m,
        {
            let var_mod = &cat_inf.modifications[m];
            let var_idx = match find_variant(&vars, var_mod.name.as_str()) {
                Some(v) => v as usize,
                None => {
                    return Err(
                        ServerError::VariantNameNotFound {
                            category: cat_inf.category.clone(),
                            name: var_mod.name.clone(),
                        },
                    );
                },
            };
            proof {
                crate::state::lemma_variant_index_in_range(vars@, var_mod.name@);
            }
            // never rename the canonical `None` variant away: skipped and
            // masked categories depend on it
            if crate::state::string_eq_str(&vars[var_idx].name, "None")
                && !crate::state::string_eq_str(&var_mod.modified_variant.name, "None") {
                return Err(ServerError::NoneVariantMissing { category: cat_idx as u8 });
            }
            let ghost vars_pre = vars@;
            let mut entry = Variant {
                name: var_mod.modified_variant.name.clone(),
                display: var_mod.modified_variant.display_name.clone(),
                svg: match &var_mod.modified_variant.svg {
                    Some(s) => Some(s.clone()),
                    None => None,
                },
            };
            vars.set_and_swap(var_idx, &mut entry);
            proof {
                if none_was is Some {
                    lemma_none_survives(vars_pre, vars@, var_idx as int);
                }
            }
            let mut w = var_mod.modified_variant.normal_weight;
            normal.set_and_swap(var_idx, &mut w);
            match &var_mod.modified_variant.jawless_weight {
                Some(jw) => match &mut jawless {
                    Some(tbl) => {
                        let mut jw2 = *jw;
                        tbl.set_and_swap(var_idx, &mut jw2);
                    },
                    None => {
                        return Err(
                            ServerError::UnexpectedArchetypeWeight {
                                category: cat_inf.category.clone(),
                                name: var_mod.modified_variant.name.clone(),
                                cyclops: false,
                            },
                        );
                    },
                },
                None => {
                    if jawless.is_some() {
                        return Err(
                            ServerError::MissingArchetypeWeight {
                                category: cat_inf.category.clone(),
                                name: var_mod.modified_variant.name.clone(),
                                cyclops: false,
                            },
                        );
                    }
                },
            }
            match &var_mod.modified_variant.cyclops_weight {
                Some(cw) => match &mut cyclops {
                    Some(tbl) => {
                        let mut cw2 = *cw;
                        tbl.set_and_swap(var_idx, &mut cw2);
                    },
                    None => {
                        return Err(
                            ServerError::UnexpectedArchetypeWeight {
                                category: cat_inf.category.clone(),
                                name: var_mod.modified_variant.name.clone(),
                                cyclops: true,
                            },
                        );
                    },
                },
                None => {
                    if cyclops.is_some() {
                        return Err(
                            ServerError::MissingArchetypeWeight {
                                category: cat_inf.category.clone(),
                                name: var_mod.modified_variant.name.clone(),
                                cyclops: true,
                            },
                        );
                    }
                },
            }
            m = m + 1;
        }
        // the updated tables must still be able to draw
        if sum_weights(normal.as_slice()) == 0 {
            return Err(ServerError::WeightTableZero { name: cat_inf.category.clone() });
        }
        let jawless_zero = match &jawless {
            Some(w) => sum_weights(w.as_slice()) == 0,
            None => false,
        };
        let cyclops_zero = match &cyclops {
            Some(w) => sum_weights(w.as_slice()) == 0,
            None => false,
        };
        if jawless_zero || cyclops_zero {
            return Err(ServerError::WeightTableZero { name: cat_inf.category.clone() });
        }
        // commit
        let old_cat2 = &self.categories[cat_idx];
        let mut cat = Category {
            name: old_cat2.name.clone(),
            forced_cyclops: old_cat2.forced_cyclops,
            forced_jawless: old_cat2.forced_jawless,
            normal_weights: normal,
            jawless_weights: jawless,
            cyclops_weights: cyclops,
        };
        proof {
            assert(cat.wf(vlen as int));
        }
        self.categories.set_and_swap(cat_idx, &mut cat);
        self.variants.set_and_swap(cat_idx, &mut vars);
        proof {
            lemma_re_wf(*old(self), *self, cat_idx as int);
        }
        Ok(())
    }
}

/// Replacing one entry keeps a `None` variant present, since the entry
/// written either sits elsewhere or keeps the name.
proof fn lemma_none_survives(pre: Seq<Variant>, post: Seq<Variant>, at: int)
    requires
        post.len() == pre.len(),
        0 <= at < pre.len(),
        forall|v: int| 0 <= v < pre.len() && v != at ==> post[v] == pre[v],
        pre[at].name@ == "None"@ ==> post[at].name@ == "None"@,
        none_index(pre) is Some,
    ensures
        none_index(post) is Some,
{
    crate::state::lemma_variant_index_in_range(pre, "None"@);
    let ni = none_index(pre).unwrap();
    assert(post[ni].name@ == "None"@);
    lemma_variant_index_exists(post, "None"@, ni);
}

/// Copies a variant list.
#[verifier::loop_isolation(false)]
fn copy_variants(vars: &Vec<Variant>) -> (r: Vec<Variant>)
    ensures
        r@.len() == vars@.len(),
        forall|i: int| 0 <= i < vars@.len() ==> r@[i] == vars@[i],
{
    let mut r: Vec<Variant> = Vec::new();
    let mut i: usize = 0;
    while i < vars.len()
        invariant
            i <= vars@.len(),
            r@.len() == i,
            forall|k: int| 0 <= k < i ==> r@[k] == vars@[k],
        decreases vars@.len() - i,
    {
        r.push(
            Variant {
                name: vars[i].name.clone(),
                display: vars[i].display.clone(),
                svg: match &vars[i].svg {
                    Some(s) => Some(s.clone()),
                    None => None,
                },
            },
        );
        i = i + 1;
    }
    r
}

/// Finds a variant description by name, by linear scan.
#[verifier::loop_isolation(false)]
pub fn find_info(infos: &Vec<VariantInfo>, name: &str) -> (r: Option<u8>)
    requires
        infos@.len() <= 255,
    ensures
        match r {
            Some(i) => info_index(infos@, name@) == Some(i as int),
            None => info_index(infos@, name@) is None,
        },
{
    let mut i: usize = 0;
    proof {
        assert(infos@.skip(0) =~= infos@);
    }
    while i < infos.len()
        invariant
            i <= infos@.len(),
            info_index(infos@, name@) == match info_index(infos@.skip(i as int), name@) {
                Some(k) => Some(k + i),
                None => None,
            },
        decreases infos@.len() - i,
    {
        proof {
            assert(infos@.skip(i as int)[0] == infos@[i as int]);
            assert(infos@.skip(i as int).skip(1) =~= infos@.skip(i as int + 1));
        }
        if crate::state::string_eq_str(&infos[i].name, name) {
            return Some(i as u8);
        }
        i = i + 1;
    }
    proof {
        assert(infos@.skip(i as int).len() == 0);
    }
    None
}

} // verus!

//! The gene roller: archetype-first rolling, dependency propagation,
//! and the partial/full reroll state machine around the uniqueness check.
use crate::canonical::{check_unique, fps, gene_in, spec_fingerprint};
use crate::error::ServerError;
use crate::layer::{find_dep, first_dep, GeneInfo, StoredDependencies, StoredLayerId};
use crate::rng::{stream_u64, Prng};
use crate::sampler::{draw_variant, lemma_pick_is, spec_draw_at, weight_sum};
use crate::state::{category_index, find_category, find_variant, none_index, variant_index, ServerState};
use vstd::prelude::*;

verus! {

/// The wire sentinel for a slot that is not yet rolled, or not yet
/// disclosed to the public.  No valid variant index can collide with it:
/// every category holds at most 255 variants, so indices stop at 254.
pub const UNROLLED: u8 = 255;

/// The value slot `c` holds after the correlated pairs `corr` are force-set
/// over a gene: the last write to a category wins.
pub open spec fn corr_value(gene: Seq<u8>, corr: Seq<StoredLayerId>, c: int) -> u8
    decreases corr.len(),
{
    if corr.len() == 0 {
        gene[c]
    } else if corr.last().category as int == c {
        corr.last().variant
    } else {
        corr_value(gene, corr.drop_last(), c)
    }
}

/// Whether `fp` is the fingerprint of `gene` under some pair of archetype
/// flags.
pub open spec fn some_fingerprint(
    state: ServerState,
    gene: Seq<u8>,
    roll_first: Seq<u8>,
    fp: Seq<u8>,
) -> bool {
    exists|cyc: bool, jaw: bool|
        fp == #[trigger] spec_fingerprint(state, gene, roll_first, cyc, jaw)
}

/// Whether some correlated pair targets category `c`.
pub open spec fn corr_targets(corr: Seq<StoredLayerId>, c: int) -> bool {
    exists|j: int| 0 <= j < corr.len() && (#[trigger] corr[j]).category as int == c
}

/// Every preset, non-archetype slot that no dependency entry force-sets
/// still holds its gene-seed value: the externally fixed background and
/// the skipped categories' `None` values survive the roll.
pub open spec fn presets_kept(
    gene: Seq<u8>,
    gene_seed: Seq<u8>,
    deps: Seq<StoredDependencies>,
    skull_idx: u8,
    chin_idx: u8,
    eye_type_idx: u8,
) -> bool {
    forall|i: int|
        #![trigger gene[i]]
        0 <= i < gene_seed.len() && gene_seed[i] != UNROLLED && i != skull_idx as int && i
            != chin_idx as int && i != eye_type_idx as int && no_corr_target(deps, i) ==> gene[i]
            == gene_seed[i]
}

/// Whether no dependency entry force-sets category `c`.
pub open spec fn no_corr_target(deps: Seq<StoredDependencies>, c: int) -> bool {
    forall|k: int, j: int|
        0 <= k < deps.len() && 0 <= j < deps[k].correlated@.len() ==> ((
        #[trigger] deps[k].correlated@[j]).category as int) != c
}

/// Whether the dependency entries cannot interfere with each other or
/// with the slots preset before rolling: source ids are distinct, no
/// entry force-sets a category that keys an entry, no two entries
/// force-set the same category, no entry names a target twice, and
/// neither sources nor targets sit in a preset or archetype-drawn slot.
pub open spec fn deps_independent(
    deps: Seq<StoredDependencies>,
    gene_seed: Seq<u8>,
    skull_idx: u8,
    chin_idx: u8,
    eye_type_idx: u8,
) -> bool {
    &&& forall|k: int, l: int|
        0 <= k < deps.len() && 0 <= l < deps.len() && k != l ==> (#[trigger] deps[k]).id != (
        #[trigger] deps[l]).id
    &&& forall|k: int, l: int, j: int|
        #![trigger deps[l].correlated@[j], deps[k].id]
        0 <= k < deps.len() && 0 <= l < deps.len() && 0 <= j < deps[l].correlated@.len()
            ==> deps[l].correlated@[j].category != deps[k].id.category
    &&& forall|k: int, l: int, j: int, j2: int|
        #![trigger deps[k].correlated@[j], deps[l].correlated@[j2]]
        0 <= k < deps.len() && 0 <= l < deps.len() && 0 <= j < deps[k].correlated@.len() && 0 <= j2
            < deps[l].correlated@.len() && (k != l || j != j2)
            ==> deps[k].correlated@[j].category != deps[l].correlated@[j2].category
    &&& forall|k: int|
        0 <= k < deps.len() ==> free_slot(#[trigger] deps[k].id, gene_seed, skull_idx, chin_idx,
            eye_type_idx)
    &&& forall|k: int, j: int|
        0 <= k < deps.len() && 0 <= j < deps[k].correlated@.len() ==> free_slot(
            #[trigger] deps[k].correlated@[j],
            gene_seed,
            skull_idx,
            chin_idx,
            eye_type_idx,
        )
}

/// Whether a layer id names a slot that the pass itself rolls: not the
/// background, not preset by the gene seed, not drawn with the archetype.
pub open spec fn free_slot(
    id: StoredLayerId,
    gene_seed: Seq<u8>,
    skull_idx: u8,
    chin_idx: u8,
    eye_type_idx: u8,
) -> bool {
    &&& id.category as int != 0
    &&& id.category != skull_idx
    &&& id.category != chin_idx
    &&& id.category != eye_type_idx
    &&& (id.category as int) < gene_seed.len() && gene_seed[id.category as int] == UNROLLED
}

/// Like `deps_independent`, but phrased over the roll configuration: the
/// preset slots are the background and the skipped categories.
pub open spec fn deps_independent_of(
    state: ServerState,
    skull_idx: u8,
    chin_idx: u8,
    eye_type_idx: u8,
) -> bool {
    &&& forall|k: int, l: int|
        0 <= k < state.depends@.len() && 0 <= l < state.depends@.len() && k != l ==> (
        #[trigger] state.depends@[k]).id != (#[trigger] state.depends@[l]).id
    &&& forall|k: int, l: int, j: int|
        #![trigger state.depends@[l].correlated@[j], state.depends@[k].id]
        0 <= k < state.depends@.len() && 0 <= l < state.depends@.len() && 0 <= j
            < state.depends@[l].correlated@.len() ==> state.depends@[l].correlated@[j].category
            != state.depends@[k].id.category
    &&& forall|k: int, l: int, j: int, j2: int|
        #![trigger state.depends@[k].correlated@[j], state.depends@[l].correlated@[j2]]
        0 <= k < state.depends@.len() && 0 <= l < state.depends@.len() && 0 <= j
            < state.depends@[k].correlated@.len() && 0 <= j2
            < state.depends@[l].correlated@.len() && (k != l || j != j2)
            ==> state.depends@[k].correlated@[j].category
            != state.depends@[l].correlated@[j2].category
    &&& forall|k: int|
        0 <= k < state.depends@.len() ==> rollable_slot(
            (#[trigger] state.depends@[k]).id,
            state,
            skull_idx,
            chin_idx,
            eye_type_idx,
        )
    &&& forall|k: int, j: int|
        0 <= k < state.depends@.len() && 0 <= j < state.depends@[k].correlated@.len()
            ==> rollable_slot(
            #[trigger] state.depends@[k].correlated@[j],
            state,
            skull_idx,
            chin_idx,
            eye_type_idx,
        )
}

/// Whether a layer id names a slot the roller draws freely under this
/// configuration.
pub open spec fn rollable_slot(
    id: StoredLayerId,
    state: ServerState,
    skull_idx: u8,
    chin_idx: u8,
    eye_type_idx: u8,
) -> bool {
    &&& id.category as int != 0
    &&& id.category != skull_idx
    &&& id.category != chin_idx
    &&& id.category != eye_type_idx
    &&& !state.roll.skip@.contains(id.category)
}

/// Dependency closure over a completed gene: whenever an entry's source
/// variant is the settled value of its category, every correlated
/// category's settled value is exactly the declared correlated value.
pub open spec fn dep_closed(deps: Seq<StoredDependencies>, gene: Seq<u8>) -> bool {
    forall|k: int| 0 <= k < deps.len() ==> dep_entry_closed(#[trigger] deps[k], gene)
}

/// One entry's closure, together with the settled marks that keep its
/// slots out of independent rerolling.
pub open spec fn dep_entry_settled(d: StoredDependencies, gene: Seq<u8>, skipping: Seq<bool>) -> bool {
    ((d.id.category as int) < gene.len() && gene[d.id.category as int] == d.id.variant
        && skipping.len() == gene.len()) ==> (skipping[d.id.category as int] && forall|j: int|
        0 <= j < d.correlated@.len() ==> gene[(#[trigger] d.correlated@[j]).category as int]
            == d.correlated@[j].variant && skipping[d.correlated@[j].category as int])
}

/// One entry's closure over the gene values alone.
pub open spec fn dep_entry_closed(d: StoredDependencies, gene: Seq<u8>) -> bool {
    ((d.id.category as int) < gene.len() && gene[d.id.category as int] == d.id.variant) ==> forall|
        j: int,
    |
        0 <= j < d.correlated@.len() ==> gene[(#[trigger] d.correlated@[j]).category as int]
            == d.correlated@[j].variant
}

/// The running closure invariant of a pass.
pub open spec fn deps_settled(deps: Seq<StoredDependencies>, gene: Seq<u8>, skipping: Seq<bool>) -> bool {
    forall|k: int| 0 <= k < deps.len() ==> dep_entry_settled(#[trigger] deps[k], gene, skipping)
}

/// The mutable state of one rolling pass: the gene under construction,
/// the settled marks, the revealed image, and the stream position.
pub ghost struct RollSt {
    pub gene: Seq<u8>,
    pub skipping: Seq<bool>,
    pub current: Seq<u8>,
    pub pos: nat,
}

/// What one unit roll comes to: an accepted unique gene, a full-reroll
/// signal (no free category left to vary after a collision), an exhausted
/// attempt budget, or a chin that the configuration cannot resolve.
pub ghost enum UnitOut {
    Accepted { current: Seq<u8>, gene: Seq<u8>, fp: Seq<u8>, pos: nat, fuel: nat },
    Restart { pos: nat, fuel: nat },
    OutOfFuel,
    NoChin,
}

/// The weight table the archetype flags select for a category.
pub open spec fn table_of(cat: crate::state::Category, cyc: bool, jaw: bool) -> Seq<u16> {
    match cat.jawless_weights {
        Some(w) => if jaw {
            w@
        } else {
            cat.normal_weights@
        },
        None => match cat.cyclops_weights {
            Some(w) => if cyc {
                w@
            } else {
                cat.normal_weights@
            },
            None => cat.normal_weights@,
        },
    }
}

/// The forced variant the archetype flags select for a category, if any.
pub open spec fn forced_of(cat: crate::state::Category, cyc: bool, jaw: bool) -> Option<u8> {
    if cyc {
        cat.forced_cyclops
    } else if jaw {
        cat.forced_jawless
    } else {
        None
    }
}

/// Whether a fingerprint is novel against the batch and the ledger.
pub open spec fn fp_fresh(fp: Seq<u8>, batch: Seq<Seq<u8>>, ledger: Seq<Vec<u8>>) -> bool {
    !batch.contains(fp) && !gene_in(ledger, fp)
}

/// Whether every category is settled.
pub open spec fn all_set(sk: Seq<bool>) -> bool {
    forall|i: int| 0 <= i < sk.len() ==> sk[i]
}

/// Settles one free slot: the forced variant when the archetype forces
/// one (revealed at once, marked settled), a weighted draw otherwise,
/// then the chosen variant's dependency entry force-set on top.
pub open spec fn step_slot(
    state: ServerState,
    cyc: bool,
    jaw: bool,
    key: Seq<u8>,
    st: RollSt,
    i: int,
) -> RollSt {
    let cat = state.categories@[i];
    let forced = forced_of(cat, cyc, jaw);
    let winner = match forced {
        Some(f) => f,
        None => spec_draw_at(table_of(cat, cyc, jaw), key, st.pos) as u8,
    };
    let pos2 = match forced {
        Some(_) => st.pos,
        None => (st.pos + 8) as nat,
    };
    let cur1 = match forced {
        Some(f) => st.current.update(i, f),
        None => st.current,
    };
    let sk1 = match forced {
        Some(_) => st.skipping.update(i, true),
        None => st.skipping,
    };
    let g1 = st.gene.update(i, winner);
    match first_dep(state.depends@, StoredLayerId { category: i as u8, variant: winner }) {
        None => RollSt { gene: g1, skipping: sk1, current: cur1, pos: pos2 },
        Some(d) => RollSt {
            gene: Seq::new(g1.len(), |c: int| corr_value(g1, d.correlated@, c)),
            skipping: Seq::new(
                sk1.len(),
                |c: int| sk1[c] || corr_targets(d.correlated@, c) || c == i,
            ),
            current: if forced is Some {
                Seq::new(cur1.len(), |c: int| corr_value(cur1, d.correlated@, c))
            } else {
                cur1
            },
            pos: pos2,
        },
    }
}

/// The slots a pass still has ahead of it.
pub open spec fn rem_slots(n: int, idx: int) -> int {
    if idx >= n {
        0
    } else {
        n - idx
    }
}

/// Runs the reroll state machine to its outcome from an arbitrary point:
/// ascending over the unsettled categories; at the end of a pass the
/// completed gene is canonicalized and tested, a collision with no free
/// category left signals the full reroll, and otherwise the free
/// categories are redrawn — testing after every redraw — until the budget
/// runs out.
pub open spec fn continue_unit(
    state: ServerState,
    cyc: bool,
    jaw: bool,
    key: Seq<u8>,
    batch: Seq<Seq<u8>>,
    roll_first: Seq<u8>,
    st: RollSt,
    idx: int,
    first_pass: bool,
    fuel: nat,
) -> UnitOut
    decreases fuel, rem_slots(state.cat_cnt(), idx),
{
    let n = state.cat_cnt();
    if idx >= n {
        let fp = spec_fingerprint(state, st.gene, roll_first, cyc, jaw);
        if fp_fresh(fp, batch, state.gene_ledger@) {
            UnitOut::Accepted { current: st.current, gene: st.gene, fp, pos: st.pos, fuel }
        } else if all_set(st.skipping) {
            UnitOut::Restart { pos: st.pos, fuel }
        } else if fuel == 0 {
            UnitOut::OutOfFuel
        } else {
            continue_unit(
                state,
                cyc,
                jaw,
                key,
                batch,
                roll_first,
                st,
                1,
                false,
                (fuel - 1) as nat,
            )
        }
    } else if 0 <= idx < st.skipping.len() && st.skipping[idx] {
        continue_unit(state, cyc, jaw, key, batch, roll_first, st, idx + 1, first_pass, fuel)
    } else {
        let st2 = step_slot(state, cyc, jaw, key, st, idx);
        let fp = spec_fingerprint(state, st2.gene, roll_first, cyc, jaw);
        if !first_pass && fp_fresh(fp, batch, state.gene_ledger@) {
            UnitOut::Accepted { current: st2.current, gene: st2.gene, fp, pos: st2.pos, fuel }
        } else {
            continue_unit(state, cyc, jaw, key, batch, roll_first, st2, idx + 1, first_pass, fuel)
        }
    }
}

/// One unit roll as a function of its inputs: the jaw, skull and eye-type
/// draws come first and fix the archetype — the chin mirrors the drawn
/// skull variant's name, or the `None` variant when jawless, and the
/// cyclops flag holds exactly when the drawn eye variant displays
/// "Cyclops" — then the remaining categories are settled and rerolled to
/// a unique fingerprint.  Every draw is `spec_draw_at` of the stream, so
/// for a fixed configuration, seed, entropy, batch and budget the outcome
/// is one value: rolling is deterministic.
pub open spec fn spec_unit(
    state: ServerState,
    eye_type_idx: u8,
    chin_idx: u8,
    skull_idx: u8,
    gene_seed: Seq<u8>,
    batch: Seq<Seq<u8>>,
    key: Seq<u8>,
    pos: nat,
    fuel: nat,
) -> UnitOut {
    let jawless = spec_draw_at(state.roll.jaw_weights@, key, pos) == 1;
    let skull_v = spec_draw_at(
        state.categories@[skull_idx as int].normal_weights@,
        key,
        (pos + 8) as nat,
    ) as u8;
    let chin_opt = if jawless {
        none_index(state.variants@[chin_idx as int]@)
    } else {
        variant_index(
            state.variants@[chin_idx as int]@,
            state.variants@[skull_idx as int]@[skull_v as int].name@,
        )
    };
    if chin_opt is None {
        UnitOut::NoChin
    } else {
        let chin_v = chin_opt.unwrap() as u8;
        let et = spec_draw_at(
            state.categories@[eye_type_idx as int].normal_weights@,
            key,
            (pos + 16) as nat,
        ) as u8;
        let cyc = state.variants@[eye_type_idx as int]@[et as int].display@ == "Cyclops"@;
        let st0 = RollSt {
            gene: gene_seed.update(skull_idx as int, skull_v).update(
                chin_idx as int,
                chin_v,
            ).update(eye_type_idx as int, et),
            skipping: Seq::new(gene_seed.len(), |i: int| gene_seed[i] != UNROLLED).update(
                skull_idx as int,
                true,
            ).update(chin_idx as int, true).update(eye_type_idx as int, true),
            current: Seq::new(gene_seed.len(), |i: int| UNROLLED).update(0, gene_seed[0]).update(
                skull_idx as int,
                skull_v,
            ).update(chin_idx as int, chin_v).update(eye_type_idx as int, et),
            pos: (pos + 24) as nat,
        };
        continue_unit(
            state,
            cyc,
            jawless,
            key,
            batch,
            seq![skull_idx, chin_idx, eye_type_idx],
            st0,
            1,
            true,
            fuel,
        )
    }
}

/// The archetype prelude of `spec_unit`, spelled out: with the three
/// draws, the chin resolution and the flag as given, the unit outcome is
/// the machine run from the assembled starting state.
#[verifier::rlimit(60)]
pub proof fn lemma_model_init(
    state: ServerState,
    eye_type_idx: u8,
    chin_idx: u8,
    skull_idx: u8,
    gene_seed: Seq<u8>,
    batch: Seq<Seq<u8>>,
    key: Seq<u8>,
    pos0: nat,
    fuel0: nat,
    jawless: bool,
    skull_v: u8,
    chin_v: u8,
    et: u8,
    cyc: bool,
)
    requires
        jawless == (spec_draw_at(state.roll.jaw_weights@, key, pos0) == 1),
        skull_v as int == spec_draw_at(
            state.categories@[skull_idx as int].normal_weights@,
            key,
            (pos0 + 8) as nat,
        ),
        (if jawless {
            none_index(state.variants@[chin_idx as int]@)
        } else {
            variant_index(
                state.variants@[chin_idx as int]@,
                state.variants@[skull_idx as int]@[skull_v as int].name@,
            )
        }) == Some(chin_v as int),
        et as int == spec_draw_at(
            state.categories@[eye_type_idx as int].normal_weights@,
            key,
            (pos0 + 16) as nat,
        ),
        cyc == (state.variants@[eye_type_idx as int]@[et as int].display@ == "Cyclops"@),
    ensures
        spec_unit(state, eye_type_idx, chin_idx, skull_idx, gene_seed, batch, key, pos0, fuel0)
            == continue_unit(
            state,
            cyc,
            jawless,
            key,
            batch,
            seq![skull_idx, chin_idx, eye_type_idx],
            RollSt {
                gene: gene_seed.update(skull_idx as int, skull_v).update(
                    chin_idx as int,
                    chin_v,
                ).update(eye_type_idx as int, et),
                skipping: Seq::new(gene_seed.len(), |i: int| gene_seed[i] != UNROLLED).update(
                    skull_idx as int,
                    true,
                ).update(chin_idx as int, true).update(eye_type_idx as int, true),
                current: Seq::new(gene_seed.len(), |i: int| UNROLLED).update(
                    0,
                    gene_seed[0],
                ).update(skull_idx as int, skull_v).update(chin_idx as int, chin_v).update(
                    eye_type_idx as int,
                    et,
                ),
                pos: (pos0 + 24) as nat,
            },
            1,
            true,
            fuel0,
        ),
{
}

/// The machine never hands back more budget than it was given.
pub proof fn lemma_continue_fuel(
    state: ServerState,
    cyc: bool,
    jaw: bool,
    key: Seq<u8>,
    batch: Seq<Seq<u8>>,
    roll_first: Seq<u8>,
    st: RollSt,
    idx: int,
    first_pass: bool,
    fuel: nat,
)
    ensures
        match continue_unit(state, cyc, jaw, key, batch, roll_first, st, idx, first_pass, fuel) {
            UnitOut::Accepted { fuel: f2, .. } => f2 <= fuel,
            UnitOut::Restart { fuel: f2, .. } => f2 <= fuel,
            _ => true,
        },
    decreases fuel, rem_slots(state.cat_cnt(), idx),
{
    let n = state.cat_cnt();
    if idx >= n {
        let fp = spec_fingerprint(state, st.gene, roll_first, cyc, jaw);
        if !fp_fresh(fp, batch, state.gene_ledger@) && !all_set(st.skipping) && fuel != 0 {
            lemma_continue_fuel(
                state,
                cyc,
                jaw,
                key,
                batch,
                roll_first,
                st,
                1,
                false,
                (fuel - 1) as nat,
            );
        }
    } else if 0 <= idx < st.skipping.len() && st.skipping[idx] {
        lemma_continue_fuel(
            state,
            cyc,
            jaw,
            key,
            batch,
            roll_first,
            st,
            idx + 1,
            first_pass,
            fuel,
        );
    } else {
        let st2 = step_slot(state, cyc, jaw, key, st, idx);
        let fp = spec_fingerprint(state, st2.gene, roll_first, cyc, jaw);
        if !(!first_pass && fp_fresh(fp, batch, state.gene_ledger@)) {
            lemma_continue_fuel(
                state,
                cyc,
                jaw,
                key,
                batch,
                roll_first,
                st2,
                idx + 1,
                first_pass,
                fuel,
            );
        }
    }
}

/// One unit roll spends at most the budget it is given.
#[verifier::rlimit(60)]
pub proof fn lemma_unit_fuel(
    state: ServerState,
    eye_type_idx: u8,
    chin_idx: u8,
    skull_idx: u8,
    gene_seed: Seq<u8>,
    batch: Seq<Seq<u8>>,
    key: Seq<u8>,
    pos: nat,
    fuel: nat,
)
    ensures
        match spec_unit(
            state,
            eye_type_idx,
            chin_idx,
            skull_idx,
            gene_seed,
            batch,
            key,
            pos,
            fuel,
        ) {
            UnitOut::Accepted { fuel: f2, .. } => f2 <= fuel,
            UnitOut::Restart { fuel: f2, .. } => f2 <= fuel,
            _ => true,
        },
{
    let jawless = spec_draw_at(state.roll.jaw_weights@, key, pos) == 1;
    let skull_v = spec_draw_at(
        state.categories@[skull_idx as int].normal_weights@,
        key,
        (pos + 8) as nat,
    ) as u8;
    let chin_opt = if jawless {
        none_index(state.variants@[chin_idx as int]@)
    } else {
        variant_index(
            state.variants@[chin_idx as int]@,
            state.variants@[skull_idx as int]@[skull_v as int].name@,
        )
    };
    if chin_opt is Some {
        let chin_v = chin_opt.unwrap() as u8;
        let et = spec_draw_at(
            state.categories@[eye_type_idx as int].normal_weights@,
            key,
            (pos + 16) as nat,
        ) as u8;
        let cyc = state.variants@[eye_type_idx as int]@[et as int].display@ == "Cyclops"@;
        let st0 = RollSt {
            gene: gene_seed.update(skull_idx as int, skull_v).update(
                chin_idx as int,
                chin_v,
            ).update(eye_type_idx as int, et),
            skipping: Seq::new(gene_seed.len(), |i: int| gene_seed[i] != UNROLLED).update(
                skull_idx as int,
                true,
            ).update(chin_idx as int, true).update(eye_type_idx as int, true),
            current: Seq::new(gene_seed.len(), |i: int| UNROLLED).update(0, gene_seed[0]).update(
                skull_idx as int,
                skull_v,
            ).update(chin_idx as int, chin_v).update(eye_type_idx as int, et),
            pos: (pos + 24) as nat,
        };
        lemma_continue_fuel(
            state,
            cyc,
            jawless,
            key,
            batch,
            seq![skull_idx, chin_idx, eye_type_idx],
            st0,
            1,
            true,
            fuel,
        );
    }
}

/// Repeated unit rolls as a function of the inputs: a full-reroll signal
/// restarts the archetype draws with the remaining budget, until a unit is
/// accepted, the configuration fails to resolve a chin, or the budget is
/// spent.
pub open spec fn spec_retry(
    state: ServerState,
    eye_type_idx: u8,
    chin_idx: u8,
    skull_idx: u8,
    gene_seed: Seq<u8>,
    batch: Seq<Seq<u8>>,
    key: Seq<u8>,
    pos: nat,
    fuel: nat,
) -> UnitOut
    decreases fuel,
    via spec_retry_decreases
{
    if fuel == 0 {
        UnitOut::OutOfFuel
    } else {
        let once = spec_unit(
            state,
            eye_type_idx,
            chin_idx,
            skull_idx,
            gene_seed,
            batch,
            key,
            pos,
            (fuel - 1) as nat,
        );
        match once {
            UnitOut::Restart { pos: pos2, fuel: fuel2 } => spec_retry(
                state,
                eye_type_idx,
                chin_idx,
                skull_idx,
                gene_seed,
                batch,
                key,
                pos2,
                fuel2,
            ),
            _ => once,
        }
    }
}

#[via_fn]
proof fn spec_retry_decreases(
    state: ServerState,
    eye_type_idx: u8,
    chin_idx: u8,
    skull_idx: u8,
    gene_seed: Seq<u8>,
    batch: Seq<Seq<u8>>,
    key: Seq<u8>,
    pos: nat,
    fuel: nat,
) {
    if fuel != 0 {
        lemma_unit_fuel(
            state,
            eye_type_idx,
            chin_idx,
            skull_idx,
            gene_seed,
            batch,
            key,
            pos,
            (fuel - 1) as nat,
        );
    }
}

/// Retrying never ends on the restart signal: it is always consumed by
/// the next attempt.
pub proof fn lemma_retry_not_restart(
    state: ServerState,
    eye_type_idx: u8,
    chin_idx: u8,
    skull_idx: u8,
    gene_seed: Seq<u8>,
    batch: Seq<Seq<u8>>,
    key: Seq<u8>,
    pos: nat,
    fuel: nat,
)
    ensures
        !(spec_retry(
            state,
            eye_type_idx,
            chin_idx,
            skull_idx,
            gene_seed,
            batch,
            key,
            pos,
            fuel,
        ) is Restart),
    decreases fuel,
{
    if fuel != 0 {
        lemma_unit_fuel(
            state,
            eye_type_idx,
            chin_idx,
            skull_idx,
            gene_seed,
            batch,
            key,
            pos,
            (fuel - 1) as nat,
        );
        match spec_unit(
            state,
            eye_type_idx,
            chin_idx,
            skull_idx,
            gene_seed,
            batch,
            key,
            pos,
            (fuel - 1) as nat,
        ) {
            UnitOut::Restart { pos: pos2, fuel: fuel2 } => {
                lemma_retry_not_restart(
                    state,
                    eye_type_idx,
                    chin_idx,
                    skull_idx,
                    gene_seed,
                    batch,
                    key,
                    pos2,
                    fuel2,
                );
            },
            _ => {},
        }
    }
}

/// The state assembled before the first pass: every settled slot holds a
/// valid variant index, and no dependency source can have fired yet.
pub proof fn lemma_entry_state(
    state: ServerState,
    eye_type_idx: u8,
    chin_idx: u8,
    skull_idx: u8,
    gene_seed: Seq<u8>,
    skull_v: u8,
    chin_v: u8,
    et: u8,
    g: Seq<u8>,
    sk: Seq<bool>,
)
    requires
        state.wf(),
        state.cat_cnt() >= 1,
        (eye_type_idx as int) < state.cat_cnt(),
        (chin_idx as int) < state.cat_cnt(),
        (skull_idx as int) < state.cat_cnt(),
        gene_seed.len() == state.cat_cnt(),
        forall|i: int|
            0 <= i < gene_seed.len() ==> gene_seed[i] == UNROLLED || (gene_seed[i] as int)
                < state.variants@[i]@.len(),
        (skull_v as int) < state.variants@[skull_idx as int]@.len(),
        (chin_v as int) < state.variants@[chin_idx as int]@.len(),
        (et as int) < state.variants@[eye_type_idx as int]@.len(),
        g == gene_seed.update(skull_idx as int, skull_v).update(chin_idx as int, chin_v).update(
            eye_type_idx as int,
            et,
        ),
        sk == Seq::new(gene_seed.len(), |i: int| gene_seed[i] != UNROLLED).update(
            skull_idx as int,
            true,
        ).update(chin_idx as int, true).update(eye_type_idx as int, true),
    ensures
        forall|i: int|
            1 <= i < state.cat_cnt() && sk[i] ==> ((#[trigger] g[i]) as int)
                < state.variants@[i]@.len(),
        deps_independent(state.depends@, gene_seed, skull_idx, chin_idx, eye_type_idx)
            ==> deps_settled(state.depends@, g, sk),
        presets_kept(g, gene_seed, state.depends@, skull_idx, chin_idx, eye_type_idx),
        forall|i: int|
            #![trigger sk[i]]
            0 <= i < gene_seed.len() && gene_seed[i] != UNROLLED ==> sk[i],
{
    assert forall|i: int| 1 <= i < state.cat_cnt() && sk[i] implies ((#[trigger] g[i]) as int)
        < state.variants@[i]@.len() by {
        if i == eye_type_idx as int {
        } else if i == chin_idx as int {
        } else if i == skull_idx as int {
        } else {
            assert(sk[i] == (gene_seed[i] != UNROLLED));
            assert(g[i] == gene_seed[i]);
        }
    }
    if deps_independent(state.depends@, gene_seed, skull_idx, chin_idx, eye_type_idx) {
        assert forall|k: int| 0 <= k < state.depends@.len() implies dep_entry_settled(
            #[trigger] state.depends@[k],
            g,
            sk,
        ) by {
            let dk = state.depends@[k];
            assert(state.wf_dep_entry(dk));
            assert(free_slot(dk.id, gene_seed, skull_idx, chin_idx, eye_type_idx));
            assert(state.categories@[dk.id.category as int].wf(
                state.variants@[dk.id.category as int]@.len() as int,
            ));
            assert(g[dk.id.category as int] == UNROLLED);
            assert((dk.id.variant as int) < state.variants@[dk.id.category as int]@.len());
        }
    }
}

/// The archetype prelude when the chin cannot be resolved: the outcome is
/// the configuration fault.
pub proof fn lemma_model_nochin(
    state: ServerState,
    eye_type_idx: u8,
    chin_idx: u8,
    skull_idx: u8,
    gene_seed: Seq<u8>,
    batch: Seq<Seq<u8>>,
    key: Seq<u8>,
    pos0: nat,
    fuel0: nat,
    jawless: bool,
    skull_v: u8,
)
    requires
        jawless == (spec_draw_at(state.roll.jaw_weights@, key, pos0) == 1),
        skull_v == spec_draw_at(
            state.categories@[skull_idx as int].normal_weights@,
            key,
            (pos0 + 8) as nat,
        ) as u8,
        (if jawless {
            none_index(state.variants@[chin_idx as int]@)
        } else {
            variant_index(
                state.variants@[chin_idx as int]@,
                state.variants@[skull_idx as int]@[skull_v as int].name@,
            )
        }) is None,
    ensures
        spec_unit(state, eye_type_idx, chin_idx, skull_idx, gene_seed, batch, key, pos0, fuel0)
            is NoChin,
{
}

/// Checks whether the rolled variant has dependencies and force-sets the
/// correlated variants if so: every correlated pair is written into the
/// gene, it and the source are marked settled (never eligible for reroll),
/// and, when the source was revealed, the revealed image is updated too.
#[verifier::loop_isolation(false)]
pub fn set_dependencies(
    category: u8,
    variant: u8,
    depends: &Vec<StoredDependencies>,
    genetic: &mut Vec<u8>,
    current: &mut Vec<u8>,
    reveal: bool,
    skipping: &mut Vec<bool>,
)
    requires
        old(genetic)@.len() == old(skipping)@.len(),
        old(current)@.len() == old(genetic)@.len(),
        (category as int) < old(genetic)@.len(),
        forall|k: int, j: int|
            0 <= k < depends@.len() && 0 <= j < depends@[k].correlated@.len() ==> ((
            #[trigger] depends@[k].correlated@[j]).category as int) < old(genetic)@.len(),
    ensures
        final(genetic)@.len() == old(genetic)@.len(),
        final(current)@.len() == old(current)@.len(),
        final(skipping)@.len() == old(skipping)@.len(),
        match first_dep(depends@, StoredLayerId { category, variant }) {
            None => final(genetic)@ == old(genetic)@ && final(current)@ == old(current)@
                && final(skipping)@ == old(skipping)@,
            Some(d) => {
                &&& forall|c: int|
                    0 <= c < old(genetic)@.len() ==> final(genetic)@[c] == corr_value(
                        old(genetic)@,
                        d.correlated@,
                        c,
                    )
                &&& forall|c: int|
                    0 <= c < old(current)@.len() ==> final(current)@[c] == (if reveal {
                        corr_value(old(current)@, d.correlated@, c)
                    } else {
                        old(current)@[c]
                    })
                &&& forall|c: int|
                    0 <= c < old(skipping)@.len() ==> final(skipping)@[c] == (old(skipping)@[c]
                        || corr_targets(d.correlated@, c) || c == category as int)
            },
        },
{
    match find_dep(depends, category, variant) {
        None => {},
        Some(d_idx) => {
            let ghost d = depends@[d_idx as int];
            let corr_len = depends[d_idx].correlated.len();
            let mut j: usize = 0;
            while j < corr_len
                invariant
                    j <= d.correlated@.len(),
                    corr_len == d.correlated@.len(),
                    genetic@.len() == old(genetic)@.len(),
                    current@.len() == old(current)@.len(),
                    skipping@.len() == old(skipping)@.len(),
                    forall|c: int|
                        0 <= c < old(genetic)@.len() ==> genetic@[c] == corr_value(
                            old(genetic)@,
                            d.correlated@.take(j as int),
                            c,
                        ),
                    forall|c: int|
                        0 <= c < old(current)@.len() ==> current@[c] == (if reveal {
                            corr_value(old(current)@, d.correlated@.take(j as int), c)
                        } else {
                            old(current)@[c]
                        }),
                    forall|c: int|
                        0 <= c < old(skipping)@.len() ==> skipping@[c] == (old(skipping)@[c]
                            || corr_targets(d.correlated@.take(j as int), c)),
                decreases corr_len - j,
            {
                let multi = depends[d_idx].correlated[j];
                let c0 = multi.category as usize;
                genetic[c0] = multi.variant;
                if reveal {
                    current[c0] = multi.variant;
                }
                skipping[c0] = true;
                proof {
                    let pre = d.correlated@.take(j as int);
                    let post = d.correlated@.take(j as int + 1);
                    assert(post.drop_last() =~= pre);
                    assert(post.last() == d.correlated@[j as int]);
                    assert forall|c: int| 0 <= c < old(skipping)@.len() implies skipping@[c] == (
                    old(skipping)@[c] || corr_targets(post, c)) by {
                        if c == multi.category as int {
                            assert((post[j as int]).category as int == c);
                            assert(corr_targets(post, c));
                        } else {
                            if corr_targets(pre, c) {
                                let jj = choose|jj: int|
                                    0 <= jj < pre.len() && (#[trigger] pre[jj]).category as int
                                        == c;
                                assert((post[jj]).category as int == c);
                            }
                            if corr_targets(post, c) {
                                let jj = choose|jj: int|
                                    0 <= jj < post.len() && (#[trigger] post[jj]).category as int
                                        == c;
                                assert(jj < pre.len());
                                assert((pre[jj]).category as int == c);
                            }
                        }
                    }
                }
                j = j + 1;
            }
            let cat0 = category as usize;
            skipping[cat0] = true;
            proof {
                assert(d.correlated@.take(d.correlated@.len() as int) =~= d.correlated@);
            }
        },
    }
}

/// Dependency closure: when a variant's dependency entry is force-set over
/// a gene, every correlated category's settled value is exactly the
/// declared correlated value — provided the entry names each target
/// category once.  Together with what `set_dependencies` ensures, the
/// correlated categories and the source are marked settled at the same
/// moment, so none of them is independently rerolled in the same pass.
pub proof fn lemma_dependency_closure(gene: Seq<u8>, corr: Seq<StoredLayerId>, j: int)
    requires
        0 <= j < corr.len(),
        forall|a: int, b: int|
            0 <= a < b < corr.len() ==> (#[trigger] corr[a]).category != (
            #[trigger] corr[b]).category,
    ensures
        corr_value(gene, corr, corr[j].category as int) == corr[j].variant,
    decreases corr.len(),
{
    if j == corr.len() - 1 {
    } else {
        assert(corr[corr.len() - 1].category != corr[j].category);
        assert forall|a: int, b: int|
            0 <= a < b < corr.drop_last().len() implies (#[trigger] corr.drop_last()[a]).category
            != (#[trigger] corr.drop_last()[b]).category by {
            assert(corr.drop_last()[a] == corr[a]);
            assert(corr.drop_last()[b] == corr[b]);
        }
        lemma_dependency_closure(gene, corr.drop_last(), j);
        assert(corr.drop_last()[j] == corr[j]);
    }
}

/// A slot that no correlated pair targets keeps its value; a targeted slot
/// holds one of the declared correlated values.
pub proof fn lemma_corr_value_cases(gene: Seq<u8>, corr: Seq<StoredLayerId>, c: int)
    ensures
        if corr_targets(corr, c) {
            exists|j: int|
                0 <= j < corr.len() && (#[trigger] corr[j]).category as int == c && corr[j].variant
                    == corr_value(gene, corr, c)
        } else {
            corr_value(gene, corr, c) == gene[c]
        },
    decreases corr.len(),
{
    if corr.len() > 0 {
        if corr.last().category as int == c {
            assert(corr[corr.len() - 1].category as int == c && corr[corr.len() - 1].variant
                == corr_value(gene, corr, c));
            assert(corr_targets(corr, c));
        } else {
            lemma_corr_value_cases(gene, corr.drop_last(), c);
            if corr_targets(corr, c) {
                let j = choose|j: int|
                    0 <= j < corr.len() && (#[trigger] corr[j]).category as int == c;
                assert(j < corr.len() - 1);
                assert((corr.drop_last()[j]).category as int == c);
                assert(corr_targets(corr.drop_last(), c));
                let j2 = choose|j2: int|
                    0 <= j2 < corr.drop_last().len() && (#[trigger] corr.drop_last()[j2]).category
                        as int == c && corr.drop_last()[j2].variant == corr_value(
                        gene,
                        corr.drop_last(),
                        c,
                    );
                assert(corr[j2].category as int == c && corr[j2].variant == corr_value(
                    gene,
                    corr,
                    c,
                ));
            } else {
                if corr_targets(corr.drop_last(), c) {
                    let j = choose|j: int|
                        0 <= j < corr.drop_last().len() && (#[trigger] corr.drop_last()[j]).category
                            as int == c;
                    assert((corr[j]).category as int == c);
                    assert(corr_targets(corr, c));
                    assert(false);
                }
            }
        }
    }
}

/// Builds a vector of `n` copies of `x`.
#[verifier::loop_isolation(false)]
pub fn filled(n: usize, x: u8) -> (r: Vec<u8>)
    ensures
        r@.len() == n,
        forall|i: int| 0 <= i < n ==> r@[i] == x,
{
    let mut r: Vec<u8> = Vec::new();
    let mut i: usize = 0;
    while i < n
        invariant
            i <= n,
            r@.len() == i,
            forall|k: int| 0 <= k < i ==> r@[k] == x,
        decreases n - i,
    {
        r.push(x);
        i = i + 1;
    }
    r
}

/// Whether every flag is set.
#[verifier::loop_isolation(false)]
pub fn all_true(flags: &Vec<bool>) -> (r: bool)
    ensures
        r == (forall|i: int| 0 <= i < flags@.len() ==> flags@[i]),
{
    let mut i: usize = 0;
    while i < flags.len()
        invariant
            i <= flags@.len(),
            forall|k: int| 0 <= k < i ==> flags@[k],
        decreases flags@.len() - i,
    {
        if !flags[i] {
            return false;
        }
        i = i + 1;
    }
    true
}

/// Whether the chin category can resolve every outcome of the archetype
/// roll: it has a canonical `None` variant for the jawless case, and a
/// variant named like every skull variant for the jawed case.
pub open spec fn chin_complete(state: ServerState, skull_idx: u8, chin_idx: u8) -> bool {
    &&& none_index(state.variants@[chin_idx as int]@) is Some
    &&& forall|v: int|
        0 <= v < state.variants@[skull_idx as int]@.len() ==> variant_index(
            state.variants@[chin_idx as int]@,
            (#[trigger] state.variants@[skull_idx as int]@[v]).name@,
        ) is Some
}

/// Performs the archetype draws that gate everything else: the jaw-type
/// flag from the two-entry table, the skull, the chin that mirrors the
/// drawn skull variant's name (or the `None` variant when jawless), and
/// the eye type, whose "Cyclops" display sets the cyclops flag.  Errs
/// exactly when the chin category cannot resolve the outcome.
#[verifier::loop_isolation(false)]
fn roll_archetype(
    state: &ServerState,
    rng: &mut Prng,
    eye_type_idx: u8,
    chin_idx: u8,
    skull_idx: u8,
) -> (r: Result<(bool, u8, u8, u8, bool), ServerError>)
    requires
        state.wf(),
        state.cat_cnt() >= 1,
        (eye_type_idx as int) < state.cat_cnt(),
        (chin_idx as int) < state.cat_cnt(),
        (skull_idx as int) < state.cat_cnt(),
    ensures
        final(rng)@.key == old(rng)@.key,
        match r {
            Ok(t) => {
                &&& final(rng)@.pos == old(rng)@.pos + 24
                &&& t.0 == (spec_draw_at(state.roll.jaw_weights@, old(rng)@.key, old(rng)@.pos)
                    == 1)
                &&& t.1 as int == spec_draw_at(
                    state.categories@[skull_idx as int].normal_weights@,
                    old(rng)@.key,
                    (old(rng)@.pos + 8) as nat,
                )
                &&& (t.1 as int) < state.variants@[skull_idx as int]@.len()
                &&& (if t.0 {
                    none_index(state.variants@[chin_idx as int]@)
                } else {
                    variant_index(
                        state.variants@[chin_idx as int]@,
                        state.variants@[skull_idx as int]@[t.1 as int].name@,
                    )
                }) == Some(t.2 as int)
                &&& (t.2 as int) < state.variants@[chin_idx as int]@.len()
                &&& t.3 as int == spec_draw_at(
                    state.categories@[eye_type_idx as int].normal_weights@,
                    old(rng)@.key,
                    (old(rng)@.pos + 16) as nat,
                )
                &&& (t.3 as int) < state.variants@[eye_type_idx as int]@.len()
                &&& t.4 == (state.variants@[eye_type_idx as int]@[t.3 as int].display@
                    == "Cyclops"@)
            },
            Err(e) => {
                &&& ({
                    let jawless = spec_draw_at(
                        state.roll.jaw_weights@,
                        old(rng)@.key,
                        old(rng)@.pos,
                    ) == 1;
                    let skull_v = spec_draw_at(
                        state.categories@[skull_idx as int].normal_weights@,
                        old(rng)@.key,
                        (old(rng)@.pos + 8) as nat,
                    ) as u8;
                    (if jawless {
                        none_index(state.variants@[chin_idx as int]@)
                    } else {
                        variant_index(
                            state.variants@[chin_idx as int]@,
                            state.variants@[skull_idx as int]@[skull_v as int].name@,
                        )
                    }) is None
                })
                &&& ((e matches ServerError::NoneVariantMissing { category } && category
                    == chin_idx) || (e matches ServerError::NamedVariantNotFound { .. }))
                &&& (chin_complete(*state, skull_idx, chin_idx) ==> false)
            },
        },
{
    let ghost k0 = rng@.key;
    let ghost p0 = rng@.pos;
    proof {
        assert(state.categories@[skull_idx as int].wf(
            state.variants@[skull_idx as int]@.len() as int,
        ));
        assert(state.categories@[eye_type_idx as int].wf(
            state.variants@[eye_type_idx as int]@.len() as int,
        ));
    }
    // determine the jaw type
    let jaw_winner = draw_variant(rng, state.roll.jaw_weights.as_slice());
    let is_jawless = jaw_winner == 1;
    proof {
        lemma_pick_is(
            state.roll.jaw_weights@,
            stream_u64(k0, p0) % weight_sum(state.roll.jaw_weights@),
            jaw_winner as int,
        );
    }
    // determine the skull
    let skull = draw_variant(rng, state.categories[skull_idx as usize].normal_weights.as_slice());
    proof {
        lemma_pick_is(
            state.categories@[skull_idx as int].normal_weights@,
            stream_u64(k0, (p0 + 8) as nat) % weight_sum(
                state.categories@[skull_idx as int].normal_weights@,
            ),
            skull as int,
        );
    }
    // a jawless skull forces the chin to `None`; otherwise the chin variant
    // carries the same name as the drawn skull variant
    let chin_var = if is_jawless {
        match state.none_variant_of(chin_idx) {
            Ok(v) => {
                proof {
                    crate::state::lemma_variant_index_in_range(
                        state.variants@[chin_idx as int]@,
                        "None"@,
                    );
                }
                v
            },
            Err(e) => {
                return Err(e);
            },
        }
    } else {
        let skull_name = state.variants[skull_idx as usize][skull as usize].name.clone();
        proof {
            assert(state.categories@[chin_idx as int].wf(
                state.variants@[chin_idx as int]@.len() as int,
            ));
        }
        match find_variant(&state.variants[chin_idx as usize], skull_name.as_str()) {
            Some(v) => {
                proof {
                    crate::state::lemma_variant_index_in_range(
                        state.variants@[chin_idx as int]@,
                        skull_name@,
                    );
                }
                v
            },
            None => {
                return Err(ServerError::NamedVariantNotFound { name: skull_name });
            },
        }
    };
    // determine the eye type; one particular outcome makes a cyclops
    let et = draw_variant(rng, state.categories[eye_type_idx as usize].normal_weights.as_slice());
    proof {
        lemma_pick_is(
            state.categories@[eye_type_idx as int].normal_weights@,
            stream_u64(k0, (p0 + 16) as nat) % weight_sum(
                state.categories@[eye_type_idx as int].normal_weights@,
            ),
            et as int,
        );
    }
    let is_cyclops = crate::state::string_eq_str(
        &state.variants[eye_type_idx as usize][et as usize].display,
        "Cyclops",
    );
    Ok((is_jawless, skull, chin_var, et, is_cyclops))
}

/// Creates one random unit: archetype draws first (jaw flag, skull, chin,
/// eye type), then every remaining category in ascending order, propagating
/// forced variants and dependencies, until the canonicalized gene is unique
/// against the ledger and the batch.  Returns the revealed image, the
/// complete genetic image and the fingerprint; or, when no free category is
/// left to vary after a collision, signals a full reroll with `true`.
///
/// The retry loop carries an attempt budget: when `fuel` runs out the call
/// reports the trait space as exhausted instead of spinning forever.
#[verifier::loop_isolation(false)]
#[verifier::rlimit(100)]
#[verifier::spinoff_prover]
pub fn new_gene_impl(
    state: &ServerState,
    rng: &mut Prng,
    eye_type_idx: u8,
    chin_idx: u8,
    skull_idx: u8,
    gene_seed: &Vec<u8>,
    uniques: &mut Vec<Vec<u8>>,
    fuel: &mut u64,
) -> (r: Result<(bool, Vec<u8>, Vec<u8>, Vec<u8>), ServerError>)
    requires
        state.wf(),
        state.cat_cnt() >= 1,
        (eye_type_idx as int) < state.cat_cnt(),
        (chin_idx as int) < state.cat_cnt(),
        (skull_idx as int) < state.cat_cnt(),
        gene_seed@.len() == state.cat_cnt(),
        forall|i: int|
            0 <= i < gene_seed@.len() ==> gene_seed@[i] == UNROLLED || (gene_seed@[i] as int)
                < state.variants@[i]@.len(),
    ensures
        final(rng)@.key == old(rng)@.key,
        *final(fuel) <= *old(fuel),
        ({
            let out = spec_unit(
                *state,
                eye_type_idx,
                chin_idx,
                skull_idx,
                gene_seed@,
                fps(old(uniques)@),
                old(rng)@.key,
                old(rng)@.pos,
                *old(fuel) as nat,
            );
            match out {
                UnitOut::Accepted { current, gene, fp, pos, fuel: f2 } => {
                    &&& r matches Ok(t) && !t.0 && t.1@ == current && t.2@ == gene && t.3@ == fp
                    &&& final(rng)@.pos == pos
                    &&& *final(fuel) == f2
                },
                UnitOut::Restart { pos, fuel: f2 } => {
                    &&& r matches Ok(t) && t.0 && t.1@.len() == 0 && t.2@.len() == 0 && t.3@.len()
                        == 0
                    &&& final(rng)@.pos == pos
                    &&& *final(fuel) == f2
                },
                UnitOut::OutOfFuel => r == Err::<
                    (bool, Vec<u8>, Vec<u8>, Vec<u8>),
                    ServerError,
                >(ServerError::RetriesExhausted) && *final(fuel) == 0,
                UnitOut::NoChin => r matches Err(e) && ((e matches ServerError::NoneVariantMissing {
                    category,
                } && category == chin_idx) || (e matches ServerError::NamedVariantNotFound { .. })),
            }
        }),
        (r matches Ok(out) && !out.0) ==> ({
            let out = r.unwrap();
            &&& out.2@.len() == state.cat_cnt()
            &&& out.1@.len() == state.cat_cnt()
            &&& forall|i: int|
                1 <= i < out.2@.len() ==> ((#[trigger] out.2@[i]) as int)
                    < state.variants@[i]@.len()
            &&& !gene_in(old(uniques)@, out.3@)
            &&& !gene_in(state.gene_ledger@, out.3@)
            &&& fps(final(uniques)@) == fps(old(uniques)@).push(out.3@)
        }),
        (r matches Ok(out) && !out.0) ==> some_fingerprint(
            *state,
            r.unwrap().2@,
            seq![skull_idx, chin_idx, eye_type_idx],
            r.unwrap().3@,
        ),
        (r matches Ok(out) && !out.0) ==> presets_kept(
            r.unwrap().2@,
            gene_seed@,
            state.depends@,
            skull_idx,
            chin_idx,
            eye_type_idx,
        ),
        (r matches Ok(out) && !out.0 && deps_independent(
            state.depends@,
            gene_seed@,
            skull_idx,
            chin_idx,
            eye_type_idx,
        )) ==> dep_closed(state.depends@, r.unwrap().2@),
        (r matches Ok(out) && out.0) ==> final(uniques)@ == old(uniques)@,
        r is Err ==> final(uniques)@ == old(uniques)@,
        (r is Err && chin_complete(*state, skull_idx, chin_idx)) ==> r == Err::<
            (bool, Vec<u8>, Vec<u8>, Vec<u8>),
            ServerError,
        >(ServerError::RetriesExhausted),
{
    let ghost k0 = rng@.key;
    let ghost p0 = rng@.pos;
    let ghost fuel0 = *fuel as nat;
    let ghost u0 = fps(old(uniques)@);
    let ghost model0 = spec_unit(
        *state,
        eye_type_idx,
        chin_idx,
        skull_idx,
        gene_seed@,
        u0,
        k0,
        p0,
        fuel0,
    );
    let n = state.roll.cat_cnt as usize;
    let mut current_image: Vec<u8> = filled(n, UNROLLED);
    let mut genetic_image: Vec<u8> = crate::canonical::clone_bytes(gene_seed);
    let mut skipping: Vec<bool> = Vec::new();
    let mut i: usize = 0;
    while i < n
        invariant
            i <= n,
            skipping@.len() == i,
            forall|k: int| 0 <= k < i ==> skipping@[k] == (gene_seed@[k] != UNROLLED),
        decreases n - i,
    {
        skipping.push(gene_seed[i] != UNROLLED);
        i = i + 1;
    }
    // the background is always the first layer, and is revealed at once
    current_image[0] = genetic_image[0];
    // the archetype draws come first and gate everything else
    let archetype = match roll_archetype(state, rng, eye_type_idx, chin_idx, skull_idx) {
        Ok(t) => t,
        Err(e) => {
            proof {
                lemma_model_nochin(
                    *state,
                    eye_type_idx,
                    chin_idx,
                    skull_idx,
                    gene_seed@,
                    u0,
                    k0,
                    p0,
                    fuel0,
                    spec_draw_at(state.roll.jaw_weights@, k0, p0) == 1,
                    spec_draw_at(
                        state.categories@[skull_idx as int].normal_weights@,
                        k0,
                        (p0 + 8) as nat,
                    ) as u8,
                );
            }
            return Err(e);
        },
    };
    let (is_jawless, skull, chin_var, et, is_cyclops) = archetype;
    // archetype traits are revealed immediately
    current_image[skull_idx as usize] = skull;
    genetic_image[skull_idx as usize] = skull;
    skipping[skull_idx as usize] = true;
    current_image[chin_idx as usize] = chin_var;
    genetic_image[chin_idx as usize] = chin_var;
    skipping[chin_idx as usize] = true;
    current_image[eye_type_idx as usize] = et;
    genetic_image[eye_type_idx as usize] = et;
    skipping[eye_type_idx as usize] = true;
    let mut roll_first: Vec<u8> = Vec::new();
    roll_first.push(skull_idx);
    roll_first.push(chin_idx);
    roll_first.push(eye_type_idx);
    proof {
        assert(roll_first@ =~= seq![skull_idx, chin_idx, eye_type_idx]);
    }
    let mut idx: usize = 1;
    let mut first_pass = true;
    proof {
        assert(genetic_image@ =~= gene_seed@.update(skull_idx as int, skull).update(
            chin_idx as int,
            chin_var,
        ).update(eye_type_idx as int, et));
        assert(skipping@ =~= Seq::new(gene_seed@.len(), |i: int| gene_seed@[i] != UNROLLED).update(
            skull_idx as int,
            true,
        ).update(chin_idx as int, true).update(eye_type_idx as int, true));
        assert(current_image@ =~= Seq::new(gene_seed@.len(), |i: int| UNROLLED).update(
            0,
            gene_seed@[0],
        ).update(skull_idx as int, skull).update(chin_idx as int, chin_var).update(
            eye_type_idx as int,
            et,
        ));
        lemma_model_init(
            *state,
            eye_type_idx,
            chin_idx,
            skull_idx,
            gene_seed@,
            u0,
            k0,
            p0,
            fuel0,
            is_jawless,
            skull,
            chin_var,
            et,
            is_cyclops,
        );
        assert(model0 == continue_unit(
            *state,
            is_cyclops,
            is_jawless,
            k0,
            u0,
            seq![skull_idx, chin_idx, eye_type_idx],
            RollSt {
                gene: genetic_image@,
                skipping: skipping@,
                current: current_image@,
                pos: rng@.pos,
            },
            1,
            true,
            fuel0,
        ));
        lemma_entry_state(
            *state,
            eye_type_idx,
            chin_idx,
            skull_idx,
            gene_seed@,
            skull,
            chin_var,
            et,
            genetic_image@,
            skipping@,
        );
    }
    // roll the rest; a collision rerolls the free categories, and when no
    // category is free to vary the whole archetype must be redrawn
    loop
        invariant
            state.wf(),
            state.cat_cnt() >= 1,
            n == state.cat_cnt(),
            1 <= idx <= n,
            genetic_image@.len() == n,
            current_image@.len() == n,
            skipping@.len() == n,
            roll_first@ == seq![skull_idx, chin_idx, eye_type_idx],
            rng@.key == k0,
            uniques@ == old(uniques)@,
            *fuel <= *old(fuel),
            forall|i: int|
                1 <= i < n ==> ((i < idx || !first_pass || skipping@[i]) ==> ((
                #[trigger] genetic_image@[i]) as int) < state.variants@[i]@.len()),
            presets_kept(
                genetic_image@,
                gene_seed@,
                state.depends@,
                skull_idx,
                chin_idx,
                eye_type_idx,
            ),
            forall|i: int|
                #![trigger skipping@[i]]
                0 <= i < gene_seed@.len() && gene_seed@[i] != UNROLLED ==> skipping@[i],
            deps_independent(state.depends@, gene_seed@, skull_idx, chin_idx, eye_type_idx)
                ==> deps_settled(state.depends@, genetic_image@, skipping@),
            model0 == continue_unit(
                *state,
                is_cyclops,
                is_jawless,
                k0,
                u0,
                roll_first@,
                RollSt {
                    gene: genetic_image@,
                    skipping: skipping@,
                    current: current_image@,
                    pos: rng@.pos,
                },
                idx as int,
                first_pass,
                *fuel as nat,
            ),
        decreases *fuel, n - idx,
    {
        if idx >= n {
            let ghost st_here = RollSt {
                gene: genetic_image@,
                skipping: skipping@,
                current: current_image@,
                pos: rng@.pos,
            };
            let ghost fuel_here = *fuel as nat;
            proof {
                crate::canonical::lemma_gene_in_fps(
                    uniques@,
                    spec_fingerprint(*state, genetic_image@, roll_first@, is_cyclops, is_jawless),
                );
            }
            // every category is settled: canonicalize and test uniqueness
            match check_unique(
                state,
                &genetic_image,
                is_cyclops,
                is_jawless,
                &roll_first,
                uniques,
            ) {
                Some(u) => {
                    proof {
                        assert(model0 == (UnitOut::Accepted {
                            current: st_here.current,
                            gene: st_here.gene,
                            fp: spec_fingerprint(
                                *state,
                                st_here.gene,
                                roll_first@,
                                is_cyclops,
                                is_jawless,
                            ),
                            pos: st_here.pos,
                            fuel: fuel_here,
                        }));
                        assert(u@ == spec_fingerprint(
                            *state,
                            genetic_image@,
                            seq![skull_idx, chin_idx, eye_type_idx],
                            is_cyclops,
                            is_jawless,
                        ));
                        assert(some_fingerprint(
                            *state,
                            genetic_image@,
                            seq![skull_idx, chin_idx, eye_type_idx],
                            u@,
                        ));
                        if deps_independent(
                            state.depends@,
                            gene_seed@,
                            skull_idx,
                            chin_idx,
                            eye_type_idx,
                        ) {
                            assert forall|k: int|
                                0 <= k < state.depends@.len() implies dep_entry_closed(
                                #[trigger] state.depends@[k],
                                genetic_image@,
                            ) by {
                                assert(dep_entry_settled(
                                    state.depends@[k],
                                    genetic_image@,
                                    skipping@,
                                ));
                            }
                        }
                    }
                    return Ok((false, current_image, genetic_image, u));
                },
                None => {},
            }
            // a duplicate: when nothing is free to vary, restart from the
            // archetype roll; otherwise reroll the free categories
            if all_true(&skipping) {
                proof {
                    assert(model0 == (UnitOut::Restart { pos: st_here.pos, fuel: fuel_here }));
                }
                return Ok((true, Vec::new(), Vec::new(), Vec::new()));
            }
            if *fuel == 0 {
                proof {
                    assert(model0 is OutOfFuel);
                }
                return Err(ServerError::RetriesExhausted);
            }
            *fuel = *fuel - 1;
            first_pass = false;
            idx = 1;
            continue ;
        }
        if !skipping[idx] {
            let ghost g0 = genetic_image@;
            let ghost s0 = skipping@;
            let ghost c0 = current_image@;
            let ghost ptop = rng@.pos;
            let ghost st_top = RollSt { gene: g0, skipping: s0, current: c0, pos: ptop };
            let ghost fuel_here = *fuel as nat;
            let cat = &state.categories[idx];
            proof {
                assert(state.categories@[idx as int].wf(state.variants@[idx as int]@.len() as int));
            }
            // pick the weight table that the archetype selects
            let weights: &Vec<u16> = match &cat.jawless_weights {
                Some(jawless) => if is_jawless {
                    jawless
                } else {
                    &cat.normal_weights
                },
                None => match &cat.cyclops_weights {
                    Some(cyclops) => if is_cyclops {
                        cyclops
                    } else {
                        &cat.normal_weights
                    },
                    None => &cat.normal_weights,
                },
            };
            // see if a forced variant applies
            let forced: Option<u8> = if is_cyclops {
                cat.forced_cyclops
            } else if is_jawless {
                cat.forced_jawless
            } else {
                None
            };
            let mut reveal_it = false;
            let winner = match forced {
                Some(f) => {
                    // forced variants are revealed immediately and never
                    // eligible for reroll
                    current_image[idx] = f;
                    skipping[idx] = true;
                    reveal_it = true;
                    f
                },
                None => draw_variant(rng, weights.as_slice()),
            };
            genetic_image[idx] = winner;
            let ghost g_before = genetic_image@;
            let ghost s_before = skipping@;
            let ghost c_before = current_image@;
            proof {
                match forced {
                    Some(_) => {},
                    None => {
                        assert(weights@ == table_of(
                            state.categories@[idx as int],
                            is_cyclops,
                            is_jawless,
                        ));
                        lemma_pick_is(
                            weights@,
                            stream_u64(k0, ptop) % weight_sum(weights@),
                            winner as int,
                        );
                    },
                }
                assert forall|k: int, j: int|
                    0 <= k < state.depends@.len() && 0 <= j
                        < state.depends@[k].correlated@.len() implies ((
                #[trigger] state.depends@[k].correlated@[j]).category as int)
                    < genetic_image@.len() by {
                    assert(state.wf_dep_entry(state.depends@[k]));
                    assert(state.wf_layer_id(state.depends@[k].correlated@[j]));
                }
            }
            // force-set any further layers this variant requires
            set_dependencies(
                idx as u8,
                winner,
                &state.depends,
                &mut genetic_image,
                &mut current_image,
                reveal_it,
                &mut skipping,
            );
            proof {
                let id = StoredLayerId { category: idx as u8, variant: winner };
                match first_dep(state.depends@, id) {
                    Some(d) => {
                        crate::layer::lemma_first_dep_member(state.depends@, id);
                        let k = choose|k: int|
                            0 <= k < state.depends@.len() && state.depends@[k] == d;
                        assert(state.wf_dep_entry(state.depends@[k]));
                        assert forall|i: int|
                            #![trigger genetic_image@[i]]
                            0 <= i < gene_seed@.len() && gene_seed@[i] != UNROLLED && i
                                != skull_idx as int && i != chin_idx as int && i
                                != eye_type_idx as int && no_corr_target(
                                state.depends@,
                                i,
                            ) implies genetic_image@[i] == gene_seed@[i] by {
                            lemma_corr_value_cases(g_before, d.correlated@, i);
                            if corr_targets(d.correlated@, i) {
                                let j = choose|j: int|
                                    0 <= j < d.correlated@.len() && (
                                    #[trigger] d.correlated@[j]).category as int == i;
                                assert(false);
                            }
                            assert(genetic_image@[i] == g_before[i]);
                            assert(s0[i]);
                            assert(i != idx as int);
                            assert(g_before[i] == g0[i]);
                        }
                        assert forall|i: int|
                            1 <= i < n && (i < idx as int + 1 || !first_pass
                                || skipping@[i]) implies ((#[trigger] genetic_image@[i]) as int)
                            < state.variants@[i]@.len() by {
                            lemma_corr_value_cases(g_before, d.correlated@, i);
                            assert(genetic_image@[i] == corr_value(g_before, d.correlated@, i));
                            if corr_targets(d.correlated@, i) {
                                let j = choose|j: int|
                                    0 <= j < d.correlated@.len() && (
                                    #[trigger] d.correlated@[j]).category as int == i
                                        && d.correlated@[j].variant == corr_value(
                                        g_before,
                                        d.correlated@,
                                        i,
                                    );
                                assert(state.wf_layer_id(d.correlated@[j]));
                            } else {
                                assert(genetic_image@[i] == g_before[i]);
                                if i != idx as int {
                                    assert(skipping@[i] == (s_before[i] || i == idx as int));
                                }
                            }
                        }
                        if deps_independent(
                            state.depends@,
                            gene_seed@,
                            skull_idx,
                            chin_idx,
                            eye_type_idx,
                        ) {
                            let deps = state.depends@;
                            assert forall|k2: int|
                                0 <= k2 < deps.len() implies dep_entry_settled(
                                #[trigger] deps[k2],
                                genetic_image@,
                                skipping@,
                            ) by {
                                let dk = deps[k2];
                                assert(state.wf_dep_entry(dk));
                                let src = dk.id.category as int;
                                assert(dep_entry_settled(dk, g0, s0));
                                if src < genetic_image@.len() && genetic_image@[src]
                                    == dk.id.variant && skipping@.len() == genetic_image@.len() {
                                    if k2 == k {
                                        // the entry applied at this step
                                        assert(!corr_targets(d.correlated@, src)) by {
                                            if corr_targets(d.correlated@, src) {
                                                let jj = choose|jj: int|
                                                    0 <= jj < d.correlated@.len() && (
                                                    #[trigger] d.correlated@[jj]).category as int
                                                        == src;
                                                assert(deps[k].correlated@[jj].category
                                                    != deps[k2].id.category);
                                                assert(false);
                                            }
                                        }
                                        assert forall|a: int, b: int|
                                            0 <= a < b < d.correlated@.len() implies (
                                        #[trigger] d.correlated@[a]).category != (
                                        #[trigger] d.correlated@[b]).category by {
                                            assert(deps[k2].correlated@[a].category
                                                != deps[k2].correlated@[b].category);
                                        }
                                        assert(skipping@[src]);
                                        assert forall|j: int|
                                            0 <= j < dk.correlated@.len() implies genetic_image@[(
                                        #[trigger] dk.correlated@[j]).category as int]
                                            == dk.correlated@[j].variant && skipping@[
                                        dk.correlated@[j].category as int] by {
                                            lemma_dependency_closure(g_before, d.correlated@, j);
                                            assert(corr_targets(
                                                d.correlated@,
                                                dk.correlated@[j].category as int,
                                            ));
                                        }
                                    } else {
                                        // an entry this step did not touch
                                        assert(!corr_targets(d.correlated@, src)) by {
                                            if corr_targets(d.correlated@, src) {
                                                let jj = choose|jj: int|
                                                    0 <= jj < d.correlated@.len() && (
                                                    #[trigger] d.correlated@[jj]).category as int
                                                        == src;
                                                assert(deps[k].correlated@[jj].category
                                                    != deps[k2].id.category);
                                                assert(false);
                                            }
                                        }
                                        lemma_corr_value_cases(g_before, d.correlated@, src);
                                        assert(genetic_image@[src] == g_before[src]);
                                        if src == idx as int {
                                            assert(g_before[src] == winner);
                                            assert(dk.id == d.id);
                                            assert(deps[k2].id != deps[k].id);
                                            assert(false);
                                        }
                                        assert(g_before[src] == g0[src]);
                                        assert(s0[src]);
                                        assert(s_before[src]);
                                        assert(skipping@[src]);
                                        assert forall|j: int|
                                            0 <= j < dk.correlated@.len() implies genetic_image@[(
                                        #[trigger] dk.correlated@[j]).category as int]
                                            == dk.correlated@[j].variant && skipping@[
                                        dk.correlated@[j].category as int] by {
                                            let t = dk.correlated@[j].category as int;
                                            assert(state.wf_layer_id(dk.correlated@[j]));
                                            assert(deps[k2].correlated@[j].category
                                                != deps[k].id.category);
                                            assert(t != idx as int);
                                            assert(!corr_targets(d.correlated@, t)) by {
                                                if corr_targets(d.correlated@, t) {
                                                    let jj = choose|jj: int|
                                                        0 <= jj < d.correlated@.len() && (
                                                        #[trigger] d.correlated@[jj]).category
                                                            as int == t;
                                                    assert(deps[k].correlated@[jj].category
                                                        != deps[k2].correlated@[j].category);
                                                    assert(false);
                                                }
                                            }
                                            lemma_corr_value_cases(g_before, d.correlated@, t);
                                            assert(genetic_image@[t] == g_before[t]);
                                            assert(g_before[t] == g0[t]);
                                            assert(s0[t]);
                                            assert(s_before[t]);
                                        }
                                    }
                                }
                            }
                        }
                    },
                    None => {
                        if deps_independent(
                            state.depends@,
                            gene_seed@,
                            skull_idx,
                            chin_idx,
                            eye_type_idx,
                        ) {
                            let deps = state.depends@;
                            assert forall|k2: int|
                                0 <= k2 < deps.len() implies dep_entry_settled(
                                #[trigger] deps[k2],
                                genetic_image@,
                                skipping@,
                            ) by {
                                let dk = deps[k2];
                                assert(state.wf_dep_entry(dk));
                                let src = dk.id.category as int;
                                assert(dep_entry_settled(dk, g0, s0));
                                if src < genetic_image@.len() && genetic_image@[src]
                                    == dk.id.variant && skipping@.len() == genetic_image@.len() {
                                    if src == idx as int {
                                        assert(dk.id.variant == winner);
                                        assert(dk.id == id);
                                        crate::layer::lemma_first_dep_of_member(deps, k2);
                                        assert(false);
                                    }
                                    assert(genetic_image@[src] == g0[src]);
                                    assert(s0[src]);
                                    assert forall|j: int|
                                        0 <= j < dk.correlated@.len() implies genetic_image@[(
                                    #[trigger] dk.correlated@[j]).category as int]
                                        == dk.correlated@[j].variant && skipping@[
                                    dk.correlated@[j].category as int] by {
                                        let t = dk.correlated@[j].category as int;
                                        assert(state.wf_layer_id(dk.correlated@[j]));
                                        if t == idx as int {
                                            assert(s0[t]);
                                            assert(false);
                                        }
                                        assert(genetic_image@[t] == g0[t]);
                                        assert(s0[t]);
                                    }
                                    assert(skipping@[src]);
                                }
                            }
                        }
                    },
                }
            }
            let ghost st2 = step_slot(*state, is_cyclops, is_jawless, k0, st_top, idx as int);
            proof {
                // the executed step is exactly the model's step
                assert(forced == forced_of(
                    state.categories@[idx as int],
                    is_cyclops,
                    is_jawless,
                ));
                assert(g_before =~= st_top.gene.update(idx as int, winner));
                assert(s_before =~= (match forced {
                    Some(_) => st_top.skipping.update(idx as int, true),
                    None => st_top.skipping,
                }));
                assert(c_before =~= (match forced {
                    Some(f) => st_top.current.update(idx as int, f),
                    None => st_top.current,
                }));
                match first_dep(
                    state.depends@,
                    StoredLayerId { category: idx as u8, variant: winner },
                ) {
                    None => {
                        assert(genetic_image@ == g_before && skipping@ == s_before
                            && current_image@ == c_before);
                    },
                    Some(d) => {
                        assert(genetic_image@ =~= Seq::new(
                            g_before.len(),
                            |c: int| corr_value(g_before, d.correlated@, c),
                        ));
                        assert(skipping@ =~= Seq::new(
                            s_before.len(),
                            |c: int|
                                s_before[c] || corr_targets(d.correlated@, c) || c == idx as int,
                        ));
                        if forced is Some {
                            assert(current_image@ =~= Seq::new(
                                c_before.len(),
                                |c: int| corr_value(c_before, d.correlated@, c),
                            ));
                        } else {
                            assert(current_image@ == c_before);
                        }
                    },
                }
                assert(genetic_image@ =~= st2.gene);
                assert(skipping@ =~= st2.skipping);
                assert(current_image@ =~= st2.current);
                assert(rng@.pos == st2.pos);
                crate::canonical::lemma_gene_in_fps(
                    uniques@,
                    spec_fingerprint(*state, st2.gene, roll_first@, is_cyclops, is_jawless),
                );
            }
            // during a reroll pass, test for novelty after every redraw
            if !first_pass {
                match check_unique(
                    state,
                    &genetic_image,
                    is_cyclops,
                    is_jawless,
                    &roll_first,
                    uniques,
                ) {
                    Some(u) => {
                        proof {
                            assert(u@ == spec_fingerprint(
                                *state,
                                genetic_image@,
                                seq![skull_idx, chin_idx, eye_type_idx],
                                is_cyclops,
                                is_jawless,
                            ));
                            assert(some_fingerprint(
                                *state,
                                genetic_image@,
                                seq![skull_idx, chin_idx, eye_type_idx],
                                u@,
                            ));
                            if deps_independent(
                                state.depends@,
                                gene_seed@,
                                skull_idx,
                                chin_idx,
                                eye_type_idx,
                            ) {
                                assert forall|k: int|
                                    0 <= k < state.depends@.len() implies dep_entry_closed(
                                    #[trigger] state.depends@[k],
                                    genetic_image@,
                                ) by {
                                    assert(dep_entry_settled(
                                        state.depends@[k],
                                        genetic_image@,
                                        skipping@,
                                    ));
                                }
                            }
                            assert(model0 == (UnitOut::Accepted {
                                current: st2.current,
                                gene: st2.gene,
                                fp: spec_fingerprint(
                                    *state,
                                    st2.gene,
                                    roll_first@,
                                    is_cyclops,
                                    is_jawless,
                                ),
                                pos: st2.pos,
                                fuel: fuel_here,
                            }));
                        }
                        return Ok((false, current_image, genetic_image, u));
                    },
                    None => {},
                }
            }
            proof {
                assert(model0 == continue_unit(
                    *state,
                    is_cyclops,
                    is_jawless,
                    k0,
                    u0,
                    roll_first@,
                    RollSt {
                        gene: genetic_image@,
                        skipping: skipping@,
                        current: current_image@,
                        pos: rng@.pos,
                    },
                    idx as int + 1,
                    first_pass,
                    *fuel as nat,
                ));
            }
        } else {
            proof {
                assert(model0 == continue_unit(
                    *state,
                    is_cyclops,
                    is_jawless,
                    k0,
                    u0,
                    roll_first@,
                    RollSt {
                        gene: genetic_image@,
                        skipping: skipping@,
                        current: current_image@,
                        pos: rng@.pos,
                    },
                    idx as int + 1,
                    first_pass,
                    *fuel as nat,
                ));
            }
        }
        idx = idx + 1;
    }
}

/// A cache entry for an item loaded by index.
pub struct RefCache<T> {
    pub index: u8,
    pub item: T,
}

/// A cache entry mapping a variant name to its index.
pub struct BackCache {
    pub id: String,
    pub index: u8,
}

/// Every cache entry agrees with the variant list it caches.
pub open spec fn back_cache_ok(cache: Seq<BackCache>, vars: Seq<crate::state::Variant>) -> bool {
    forall|k: int|
        0 <= k < cache.len() ==> variant_index(vars, (#[trigger] cache[k]).id@) == Some(
            cache[k].index as int,
        )
}

/// Resolves a variant name to its index through a scan cache, filling the
/// cache on a miss.  Errs exactly when no variant carries the name.
#[verifier::loop_isolation(false)]
pub fn use_back_cache(
    vars: &Vec<crate::state::Variant>,
    id: &str,
    back_cache: &mut Vec<BackCache>,
) -> (r: Result<u8, ServerError>)
    requires
        vars@.len() <= 255,
        back_cache_ok(old(back_cache)@, vars@),
    ensures
        back_cache_ok(final(back_cache)@, vars@),
        match r {
            Ok(v) => variant_index(vars@, id@) == Some(v as int),
            Err(e) => variant_index(vars@, id@) is None && (e matches
                ServerError::NamedVariantNotFound { name } && name@ == id@),
        },
{
    let mut k: usize = 0;
    while k < back_cache.len()
        invariant
            k <= back_cache@.len(),
        decreases back_cache@.len() - k,
    {
        if crate::state::string_eq_str(&back_cache[k].id, id) {
            let v = back_cache[k].index;
            proof {
                assert(variant_index(vars@, back_cache@[k as int].id@) == Some(v as int));
            }
            return Ok(v);
        }
        k = k + 1;
    }
    match find_variant(vars, id) {
        Some(v) => {
            back_cache.push(BackCache { id: id.to_owned(), index: v });
            Ok(v)
        },
        None => Err(ServerError::NamedVariantNotFound { name: id.to_owned() }),
    }
}

/// What the roller guarantees of every unit it emits: full-length images,
/// a valid variant index in every rolled slot, and a fingerprint that is
/// the canonicalization of the genetic image under the archetype flags.
pub open spec fn rolled_unit(
    state: ServerState,
    g: GeneInfo,
    skull_idx: u8,
    chin_idx: u8,
    eye_type_idx: u8,
) -> bool {
    &&& g.genetic_image@.len() == state.cat_cnt()
    &&& g.current_image@.len() == state.cat_cnt()
    &&& forall|i: int|
        1 <= i < g.genetic_image@.len() ==> ((#[trigger] g.genetic_image@[i]) as int)
            < state.variants@[i]@.len()
    &&& some_fingerprint(
        state,
        g.genetic_image@,
        seq![skull_idx, chin_idx, eye_type_idx],
        g.unique_check@,
    )
}

/// Rolls one unit to acceptance: partial rerolls happen inside
/// `new_gene_impl`; a full reroll signal restarts the archetype draws here.
#[verifier::loop_isolation(false)]
pub fn roll_one_unit(
    state: &ServerState,
    rng: &mut Prng,
    eye_type_idx: u8,
    chin_idx: u8,
    skull_idx: u8,
    gene_seed: &Vec<u8>,
    uniques: &mut Vec<Vec<u8>>,
    fuel: &mut u64,
) -> (r: Result<GeneInfo, ServerError>)
    requires
        state.wf(),
        state.cat_cnt() >= 1,
        (eye_type_idx as int) < state.cat_cnt(),
        (chin_idx as int) < state.cat_cnt(),
        (skull_idx as int) < state.cat_cnt(),
        gene_seed@.len() == state.cat_cnt(),
        forall|i: int|
            0 <= i < gene_seed@.len() ==> gene_seed@[i] == UNROLLED || (gene_seed@[i] as int)
                < state.variants@[i]@.len(),
    ensures
        final(rng)@.key == old(rng)@.key,
        *final(fuel) <= *old(fuel),
        ({
            let out = spec_retry(
                *state,
                eye_type_idx,
                chin_idx,
                skull_idx,
                gene_seed@,
                fps(old(uniques)@),
                old(rng)@.key,
                old(rng)@.pos,
                *old(fuel) as nat,
            );
            match out {
                UnitOut::Accepted { current, gene, fp, pos, fuel: f2 } => {
                    &&& r matches Ok(g) && g.current_image@ == current && g.genetic_image@ == gene
                        && g.unique_check@ == fp
                    &&& final(rng)@.pos == pos
                    &&& *final(fuel) == f2
                },
                UnitOut::Restart { .. } => false,
                UnitOut::OutOfFuel => r == Err::<GeneInfo, ServerError>(
                    ServerError::RetriesExhausted,
                ) && *final(fuel) == 0,
                UnitOut::NoChin => r matches Err(e) && ((e matches ServerError::NoneVariantMissing {
                    category,
                } && category == chin_idx) || (e matches ServerError::NamedVariantNotFound { .. })),
            }
        }),
        match r {
            Ok(g) => {
                &&& rolled_unit(*state, g, skull_idx, chin_idx, eye_type_idx)
                &&& !gene_in(old(uniques)@, g.unique_check@)
                &&& !gene_in(state.gene_ledger@, g.unique_check@)
                &&& fps(final(uniques)@) == fps(old(uniques)@).push(g.unique_check@)
                &&& presets_kept(
                    g.genetic_image@,
                    gene_seed@,
                    state.depends@,
                    skull_idx,
                    chin_idx,
                    eye_type_idx,
                )
                &&& (deps_independent(
                    state.depends@,
                    gene_seed@,
                    skull_idx,
                    chin_idx,
                    eye_type_idx,
                ) ==> dep_closed(state.depends@, g.genetic_image@))
            },
            Err(e) => final(uniques)@ == old(uniques)@ && (chin_complete(
                *state,
                skull_idx,
                chin_idx,
            ) ==> e == ServerError::RetriesExhausted),
        },
{
    let ghost k0 = rng@.key;
    let ghost p0 = rng@.pos;
    let ghost fuel_in = *fuel as nat;
    let ghost u0 = fps(old(uniques)@);
    let ghost model = spec_retry(
        *state,
        eye_type_idx,
        chin_idx,
        skull_idx,
        gene_seed@,
        u0,
        k0,
        p0,
        fuel_in,
    );
    loop
        invariant
            rng@.key == k0,
            uniques@ == old(uniques)@,
            *fuel <= *old(fuel),
            model == spec_retry(
                *state,
                eye_type_idx,
                chin_idx,
                skull_idx,
                gene_seed@,
                u0,
                k0,
                rng@.pos,
                *fuel as nat,
            ),
        decreases *fuel,
    {
        if *fuel == 0 {
            proof {
                assert(model is OutOfFuel);
            }
            return Err(ServerError::RetriesExhausted);
        }
        *fuel = *fuel - 1;
        let ghost pos_here = rng@.pos;
        let ghost fuel_here = *fuel as nat;
        match new_gene_impl(
            state,
            rng,
            eye_type_idx,
            chin_idx,
            skull_idx,
            gene_seed,
            uniques,
            fuel,
        ) {
            Ok(out) => {
                let (reroll, current_image, genetic_image, unique_check) = out;
                if !reroll {
                    proof {
                        assert(model == spec_unit(
                            *state,
                            eye_type_idx,
                            chin_idx,
                            skull_idx,
                            gene_seed@,
                            u0,
                            k0,
                            pos_here,
                            fuel_here,
                        ));
                    }
                    return Ok(GeneInfo { current_image, genetic_image, unique_check });
                }
                // exhausted: no free category left to vary; redraw the
                // archetype from scratch
            },
            Err(e) => {
                proof {
                    assert(model == spec_unit(
                        *state,
                        eye_type_idx,
                        chin_idx,
                        skull_idx,
                        gene_seed@,
                        u0,
                        k0,
                        pos_here,
                        fuel_here,
                    ));
                }
                return Err(e);
            },
        }
    }
}

/// Whether the configuration can serve this whole request without a
/// configuration fault: the three archetype categories exist, the chin can
/// resolve every archetype outcome, and every requested background exists.
pub open spec fn roll_ready(state: ServerState, backgrounds: Seq<Seq<char>>) -> bool {
    &&& category_index(state.categories@, "Skull"@) is Some
    &&& category_index(state.categories@, "Jaw"@) is Some
    &&& category_index(state.categories@, "Eye Type"@) is Some
    &&& chin_complete(
        state,
        category_index(state.categories@, "Skull"@).unwrap() as u8,
        category_index(state.categories@, "Jaw"@).unwrap() as u8,
    )
    &&& forall|b: int|
        0 <= b < backgrounds.len() ==> variant_index(
            state.variants@[0]@,
            #[trigger] backgrounds[b],
        ) is Some
}

/// The attempt budget of one request: the full-reroll loop has no natural
/// cap, so the controller draws the line here rather than spin forever on
/// an exhausted trait space.
pub const ROLL_FUEL: u64 = 16777216;

/// The retry controller: for each requested background it drives the
/// archetype roller and the gene roller to a complete gene, canonicalizes
/// it, checks it against the ledger and the in-batch supplement, and
/// accepts it only when novel.  Returns one unit per background; the
/// fingerprints are pairwise distinct and none stands in the ledger.
#[verifier::loop_isolation(false)]
pub fn new_genes(
    state: &ServerState,
    prng_seed: &[u8],
    height: u64,
    time: u64,
    sender: &[u8],
    entropy: &[u8],
    backgrounds: &Vec<String>,
) -> (r: Result<Vec<GeneInfo>, ServerError>)
    requires
        state.wf(),
        state.cat_cnt() >= 1,
    ensures
        match r {
            Ok(genes) => {
                let skull_idx = category_index(state.categories@, "Skull"@).unwrap() as u8;
                let chin_idx = category_index(state.categories@, "Jaw"@).unwrap() as u8;
                let eye_type_idx = category_index(state.categories@, "Eye Type"@).unwrap() as u8;
                &&& genes@.len() == backgrounds@.len()
                &&& category_index(state.categories@, "Skull"@) is Some
                &&& category_index(state.categories@, "Jaw"@) is Some
                &&& category_index(state.categories@, "Eye Type"@) is Some
                &&& forall|k: int|
                    0 <= k < genes@.len() ==> rolled_unit(
                        *state,
                        #[trigger] genes@[k],
                        skull_idx,
                        chin_idx,
                        eye_type_idx,
                    )
                &&& forall|k: int|
                    0 <= k < genes@.len() ==> !gene_in(
                        state.gene_ledger@,
                        (#[trigger] genes@[k]).unique_check@,
                    )
                &&& forall|k: int, l: int|
                    0 <= k < l < genes@.len() ==> (#[trigger] genes@[k]).unique_check@ != (
                    #[trigger] genes@[l]).unique_check@
                &&& ((skull_idx != 0 && chin_idx != 0 && eye_type_idx != 0 && no_corr_target(
                    state.depends@,
                    0,
                )) ==> forall|k: int|
                    0 <= k < genes@.len() ==> variant_index(
                        state.variants@[0]@,
                        backgrounds@[k]@,
                    ) == Some((#[trigger] genes@[k]).genetic_image@[0] as int))
                &&& (deps_independent_of(*state, skull_idx, chin_idx, eye_type_idx) ==> forall|
                    k: int,
                |
                    0 <= k < genes@.len() ==> dep_closed(
                        state.depends@,
                        (#[trigger] genes@[k]).genetic_image@,
                    ))
            },
            Err(e) => {
                &&& (roll_ready(*state, backgrounds@.map_values(|s: String| s@)) ==> e
                    == ServerError::RetriesExhausted)
                &&& ({
                    let skull_idx = category_index(state.categories@, "Skull"@).unwrap() as u8;
                    let chin_idx = category_index(state.categories@, "Jaw"@).unwrap() as u8;
                    ||| (e matches ServerError::ArchetypeCategoryMissing { name }
                        && category_index(state.categories@, name@) is None && (name@ == "Skull"@
                        || name@ == "Jaw"@ || name@ == "Eye Type"@))
                    ||| (e matches ServerError::NamedVariantNotFound { name } && ((exists|b: int|
                        0 <= b < backgrounds@.len() && (#[trigger] backgrounds@[b])@ == name@
                            && variant_index(state.variants@[0]@, name@) is None)
                        || !chin_complete(*state, skull_idx, chin_idx)))
                    ||| (e matches ServerError::NoneVariantMissing { .. } && !chin_complete(
                        *state,
                        skull_idx,
                        chin_idx,
                    ))
                    ||| e == ServerError::RetriesExhausted
                })
            },
        },
{
    let eye_type_idx = match find_category(&state.categories, "Eye Type") {
        Some(i) => i,
        None => {
            return Err(ServerError::ArchetypeCategoryMissing { name: "Eye Type".to_owned() });
        },
    };
    let chin_idx = match find_category(&state.categories, "Jaw") {
        Some(i) => i,
        None => {
            return Err(ServerError::ArchetypeCategoryMissing { name: "Jaw".to_owned() });
        },
    };
    let skull_idx = match find_category(&state.categories, "Skull") {
        Some(i) => i,
        None => {
            return Err(ServerError::ArchetypeCategoryMissing { name: "Skull".to_owned() });
        },
    };
    proof {
        crate::state::lemma_category_index_in_range(state.categories@, "Eye Type"@);
        crate::state::lemma_category_index_in_range(state.categories@, "Jaw"@);
        crate::state::lemma_category_index_in_range(state.categories@, "Skull"@);
    }
    let n = state.roll.cat_cnt as usize;
    // the draw source for this whole call
    let rng_entropy = crate::rng::extend_entropy(height, time, sender, entropy);
    let mut rng = Prng::new(prng_seed, rng_entropy.as_slice());
    // the gene seed: skipped categories preset to their `None` variant,
    // everything else still to be rolled
    let mut gene_seed: Vec<u8> = filled(n, UNROLLED);
    let mut si: usize = 0;
    while si < state.roll.skip.len()
        invariant
            si <= state.roll.skip@.len(),
            gene_seed@.len() == n,
            forall|i: int|
                0 <= i < n ==> gene_seed@[i] == UNROLLED || ((#[trigger] gene_seed@[i]) as int)
                    < state.variants@[i]@.len(),
            forall|i: int|
                0 <= i < n ==> ((#[trigger] gene_seed@[i]) != UNROLLED <==> exists|q: int|
                    0 <= q < si && (#[trigger] state.roll.skip@[q]) as int == i),
        decreases state.roll.skip@.len() - si,
    {
        let sc = state.roll.skip[si];
        let none_idx = match state.none_variant_of(sc) {
            Ok(v) => v,
            Err(_) => {
                proof {
                    assert(false);
                }
                0
            },
        };
        proof {
            crate::state::lemma_variant_index_in_range(state.variants@[sc as int]@, "None"@);
            assert(state.categories@[sc as int].wf(state.variants@[sc as int]@.len() as int));
        }
        let ghost pre_seed = gene_seed@;
        gene_seed[sc as usize] = none_idx;
        proof {
            assert(none_idx != UNROLLED);
            assert forall|i: int|
                0 <= i < n implies ((#[trigger] gene_seed@[i]) != UNROLLED <==> exists|q: int|
                0 <= q < si + 1 && (#[trigger] state.roll.skip@[q]) as int == i) by {
                if i == sc as int {
                    assert((state.roll.skip@[si as int]) as int == i);
                } else {
                    assert(gene_seed@[i] == pre_seed[i]);
                    if pre_seed[i] != UNROLLED {
                        let q = choose|q: int|
                            0 <= q < si && (#[trigger] state.roll.skip@[q]) as int == i;
                        assert(0 <= q < si + 1 && (state.roll.skip@[q]) as int == i);
                    }
                    if exists|q: int|
                        0 <= q < si + 1 && (#[trigger] state.roll.skip@[q]) as int == i {
                        let q = choose|q: int|
                            0 <= q < si + 1 && (#[trigger] state.roll.skip@[q]) as int == i;
                        assert(q != si as int);
                        assert(0 <= q < si && (state.roll.skip@[q]) as int == i);
                    }
                }
            }
        }
        si = si + 1;
    }
    proof {
        assert forall|i: int| 1 <= i < n implies ((#[trigger] gene_seed@[i]) != UNROLLED
            <==> state.roll.skip@.contains(i as u8)) by {
            if gene_seed@[i] != UNROLLED {
                let q = choose|q: int|
                    0 <= q < state.roll.skip@.len() && (#[trigger] state.roll.skip@[q]) as int
                        == i;
                assert(state.roll.skip@[q] == i as u8);
            }
            if state.roll.skip@.contains(i as u8) {
                let q = choose|q: int|
                    0 <= q < state.roll.skip@.len() && state.roll.skip@[q] == i as u8;
                assert((state.roll.skip@[q]) as int == i);
            }
        }
    }
    let mut uniques: Vec<Vec<u8>> = Vec::new();
    let mut genes: Vec<GeneInfo> = Vec::new();
    let mut back_cache: Vec<BackCache> = Vec::new();
    let mut fuel: u64 = ROLL_FUEL;
    let mut b: usize = 0;
    while b < backgrounds.len()
        invariant
            b <= backgrounds@.len(),
            genes@.len() == b,
            gene_seed@.len() == n,
            forall|i: int|
                0 <= i < n ==> gene_seed@[i] == UNROLLED || ((#[trigger] gene_seed@[i]) as int)
                    < state.variants@[i]@.len(),
            back_cache_ok(back_cache@, state.variants@[0]@),
            fps(uniques@) == genes@.map_values(|g: GeneInfo| g.unique_check@),
            forall|k: int|
                0 <= k < genes@.len() ==> rolled_unit(
                    *state,
                    #[trigger] genes@[k],
                    skull_idx,
                    chin_idx,
                    eye_type_idx,
                ),
            forall|k: int|
                0 <= k < genes@.len() ==> !gene_in(
                    state.gene_ledger@,
                    (#[trigger] genes@[k]).unique_check@,
                ),
            forall|k: int, l: int|
                0 <= k < l < genes@.len() ==> (#[trigger] genes@[k]).unique_check@ != (
                #[trigger] genes@[l]).unique_check@,
            (skull_idx != 0 && chin_idx != 0 && eye_type_idx != 0 && no_corr_target(
                state.depends@,
                0,
            )) ==> forall|k: int|
                0 <= k < genes@.len() ==> variant_index(state.variants@[0]@, backgrounds@[k]@)
                    == Some((#[trigger] genes@[k]).genetic_image@[0] as int),
            forall|i: int|
                1 <= i < n ==> ((#[trigger] gene_seed@[i]) != UNROLLED <==> state.roll.skip@.contains(
                    i as u8,
                )),
            deps_independent_of(*state, skull_idx, chin_idx, eye_type_idx) ==> forall|k: int|
                0 <= k < genes@.len() ==> dep_closed(
                    state.depends@,
                    (#[trigger] genes@[k]).genetic_image@,
                ),
        decreases backgrounds@.len() - b,
    {
        proof {
            assert(state.categories@[0].wf(state.variants@[0]@.len() as int));
        }
        let background_idx = match use_back_cache(
            &state.variants[0],
            backgrounds[b].as_str(),
            &mut back_cache,
        ) {
            Ok(v) => v,
            Err(e) => {
                proof {
                    if roll_ready(*state, backgrounds@.map_values(|s: String| s@)) {
                        assert(backgrounds@.map_values(|s: String| s@)[b as int]
                            == backgrounds@[b as int]@);
                        assert(false);
                    }
                }
                return Err(e);
            },
        };
        proof {
            crate::state::lemma_variant_index_in_range(
                state.variants@[0]@,
                backgrounds@[b as int]@,
            );
        }
        gene_seed[0] = background_idx;
        proof {
            if deps_independent_of(*state, skull_idx, chin_idx, eye_type_idx) {
                assert forall|k: int|
                    0 <= k < state.depends@.len() implies free_slot(
                    (#[trigger] state.depends@[k]).id,
                    gene_seed@,
                    skull_idx,
                    chin_idx,
                    eye_type_idx,
                ) by {
                    assert(rollable_slot(
                        state.depends@[k].id,
                        *state,
                        skull_idx,
                        chin_idx,
                        eye_type_idx,
                    ));
                    assert(state.wf_dep_entry(state.depends@[k]));
                    assert(state.wf_layer_id(state.depends@[k].id));
                }
                assert forall|k: int, j: int|
                    0 <= k < state.depends@.len() && 0 <= j
                        < state.depends@[k].correlated@.len() implies free_slot(
                    #[trigger] state.depends@[k].correlated@[j],
                    gene_seed@,
                    skull_idx,
                    chin_idx,
                    eye_type_idx,
                ) by {
                    assert(rollable_slot(
                        state.depends@[k].correlated@[j],
                        *state,
                        skull_idx,
                        chin_idx,
                        eye_type_idx,
                    ));
                    assert(state.wf_dep_entry(state.depends@[k]));
                    assert(state.wf_layer_id(state.depends@[k].correlated@[j]));
                }
                assert(deps_independent(
                    state.depends@,
                    gene_seed@,
                    skull_idx,
                    chin_idx,
                    eye_type_idx,
                ));
            }
        }
        let ghost uniques_before = uniques@;
        let g = match roll_one_unit(
            state,
            &mut rng,
            eye_type_idx,
            chin_idx,
            skull_idx,
            &gene_seed,
            &mut uniques,
            &mut fuel,
        ) {
            Ok(g) => g,
            Err(e) => {
                proof {
                    if roll_ready(*state, backgrounds@.map_values(|s: String| s@)) {
                        assert(chin_complete(*state, skull_idx, chin_idx));
                    }
                    if e != ServerError::RetriesExhausted {
                        assert(!chin_complete(*state, skull_idx, chin_idx));
                        assert((e matches ServerError::NoneVariantMissing { .. }) || (e matches
                            ServerError::NamedVariantNotFound { .. }));
                    }
                }
                return Err(e);
            },
        };
        let ghost fp = g.unique_check@;
        let ghost g_gene = g.genetic_image@;
        let ghost genes_before = genes@;
        genes.push(g);
        proof {
            if deps_independent_of(*state, skull_idx, chin_idx, eye_type_idx) {
                assert forall|k: int| 0 <= k < genes@.len() implies dep_closed(
                    state.depends@,
                    (#[trigger] genes@[k]).genetic_image@,
                ) by {
                    if k < genes@.len() - 1 {
                        assert(genes@[k] == genes_before[k]);
                    } else {
                        assert(genes@[k].genetic_image@ == g_gene);
                    }
                }
            }
        }
        proof {
            assert(fps(uniques@) =~= genes@.map_values(|g: GeneInfo| g.unique_check@));
            assert forall|k: int, l: int|
                0 <= k < l < genes@.len() implies (#[trigger] genes@[k]).unique_check@ != (
            #[trigger] genes@[l]).unique_check@ by {
                if l == genes@.len() - 1 {
                    assert(!gene_in(uniques_before, fp));
                    assert(fps(uniques_before)[k] == uniques_before[k]@);
                    assert(genes@[k].unique_check@ == uniques_before[k]@);
                }
            }
        }
        b = b + 1;
    }
    Ok(genes)
}

} // verus!

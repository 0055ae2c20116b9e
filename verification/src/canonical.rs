//! The uniqueness canonicalizer and the gene ledger.
//!
//! A completed gene is canonicalized into a fingerprint: slots masked by an
//! active hider are replaced by the category's `None` variant, the
//! background and archetype-determining slots are stripped, and the two
//! archetype flags are appended.  The fingerprint alone decides whether a
//! gene duplicates an earlier one.
use crate::error::ServerError;
use crate::layer::{first_dep, find_dep, StoredLayerId};
use crate::state::{none_index, ServerState};
use vstd::prelude::*;

verus! {

/// Whether the hider entry of the variant standing in slot `idx` masks
/// slot `c` through its `j`-th correlated pair: the pair names category `c`
/// and the very value the gene holds there.
pub open spec fn hider_masks(
    hiders: Seq<crate::layer::StoredDependencies>,
    gene: Seq<u8>,
    idx: int,
    j: int,
    c: int,
) -> bool {
    &&& 1 <= idx < gene.len()
    &&& 0 <= c < gene.len()
    &&& match first_dep(hiders, StoredLayerId { category: idx as u8, variant: gene[idx] }) {
        Some(h) => 0 <= j < h.correlated@.len() && h.correlated@[j].category as int == c
            && h.correlated@[j].variant == gene[c],
        None => false,
    }
}

/// Whether the hider graph masks slot `c` of this gene.
pub open spec fn slot_masked(
    hiders: Seq<crate::layer::StoredDependencies>,
    gene: Seq<u8>,
    c: int,
) -> bool {
    exists|idx: int, j: int| #[trigger] hider_masks(hiders, gene, idx, j, c)
}

/// The hider-masked copy of a gene: every masked slot is replaced by that
/// category's canonical `None` variant, only for fingerprinting.
pub open spec fn masked_gene(state: ServerState, gene: Seq<u8>) -> Seq<u8> {
    Seq::new(
        gene.len(),
        |c: int|
            if slot_masked(state.hiders@, gene, c) {
                none_index(state.variants@[c]@).unwrap() as u8
            } else {
                gene[c]
            },
    )
}

/// The slots of `m` from position `i` on, keeping only those that are
/// neither the background (slot 0) nor drawn first as archetype slots.
pub open spec fn strip_from(m: Seq<u8>, roll_first: Seq<u8>, i: int) -> Seq<u8>
    decreases m.len() - i,
{
    if i < 1 || i >= m.len() {
        Seq::empty()
    } else if roll_first.contains(i as u8) {
        strip_from(m, roll_first, i + 1)
    } else {
        seq![m[i]] + strip_from(m, roll_first, i + 1)
    }
}

/// The fingerprint of a completed gene: hider masking applied, background
/// and archetype slots stripped, the two archetype flags appended.
pub open spec fn spec_fingerprint(
    state: ServerState,
    gene: Seq<u8>,
    roll_first: Seq<u8>,
    is_cyclops: bool,
    is_jawless: bool,
) -> Seq<u8> {
    strip_from(masked_gene(state, gene), roll_first, 1) + seq![
        if is_cyclops {
            1u8
        } else {
            0u8
        },
        if is_jawless {
            1u8
        } else {
            0u8
        },
    ]
}

/// The fingerprints a list of byte vectors holds, as sequences.
pub open spec fn fps(list: Seq<Vec<u8>>) -> Seq<Seq<u8>> {
    list.map_values(|v: Vec<u8>| v@)
}

/// Whether a fingerprint equal to `g` stands in `list`.
pub open spec fn gene_in(list: Seq<Vec<u8>>, g: Seq<u8>) -> bool {
    exists|i: int| 0 <= i < list.len() && (#[trigger] list[i])@ == g
}

/// Membership in the list and in its fingerprint view coincide.
pub proof fn lemma_gene_in_fps(list: Seq<Vec<u8>>, g: Seq<u8>)
    ensures
        gene_in(list, g) == fps(list).contains(g),
{
    if gene_in(list, g) {
        let i = choose|i: int| 0 <= i < list.len() && (#[trigger] list[i])@ == g;
        assert(fps(list)[i] == g);
    }
    if fps(list).contains(g) {
        let i = choose|i: int| 0 <= i < fps(list).len() && fps(list)[i] == g;
        assert((list[i])@ == g);
    }
}

/// Membership survives appending.
pub proof fn lemma_gene_in_push(s: Seq<Vec<u8>>, x: Vec<u8>, g: Seq<u8>)
    requires
        gene_in(s, g),
    ensures
        gene_in(s.push(x), g),
{
    let i = choose|i: int| 0 <= i < s.len() && (#[trigger] s[i])@ == g;
    assert((s.push(x)[i])@ == g);
}

/// Whether `list` holds an entry equal to `g`.
#[verifier::loop_isolation(false)]
pub fn contains_gene(list: &Vec<Vec<u8>>, g: &Vec<u8>) -> (r: bool)
    ensures
        r == gene_in(list@, g@),
{
    let mut i: usize = 0;
    while i < list.len()
        invariant
            i <= list@.len(),
            forall|k: int| 0 <= k < i ==> (#[trigger] list@[k])@ != g@,
        decreases list@.len() - i,
    {
        if &list[i] == g {
            assert(list@[i as int]@ =~= g@);
            return true;
        }
        proof {
            if list@[i as int]@ == g@ {
                assert(list@[i as int]@ =~= g@);
                assert(false);
            }
        }
        i = i + 1;
    }
    false
}

/// Whether `list` holds the byte `x`.
#[verifier::loop_isolation(false)]
pub fn contains_u8(list: &Vec<u8>, x: u8) -> (r: bool)
    ensures
        r == list@.contains(x),
{
    let mut i: usize = 0;
    while i < list.len()
        invariant
            i <= list@.len(),
            forall|k: int| 0 <= k < i ==> list@[k] != x,
        decreases list@.len() - i,
    {
        if list[i] == x {
            return true;
        }
        i = i + 1;
    }
    false
}

/// Like `slot_masked`, but only counting mask sources in slots below `hi`.
pub open spec fn slot_masked_below(
    hiders: Seq<crate::layer::StoredDependencies>,
    gene: Seq<u8>,
    c: int,
    hi: int,
) -> bool {
    exists|idx: int, j: int| idx < hi && #[trigger] hider_masks(hiders, gene, idx, j, c)
}

/// Hider masking correctness: two otherwise-identical complete genes that
/// differ only in slot `c`, where each of the two either holds a value
/// masked by an active hider or already holds the category's canonical
/// `None` variant, canonicalize to the same fingerprint — so the second
/// gene is a collision and can never be accepted as distinct.  `c` may not
/// be a category that keys hider entries of its own, since then the two
/// genes would activate different maskings.
pub proof fn lemma_hider_masking(
    state: ServerState,
    g1: Seq<u8>,
    g2: Seq<u8>,
    roll_first: Seq<u8>,
    is_cyclops: bool,
    is_jawless: bool,
    c: int,
)
    requires
        g1.len() == g2.len(),
        g1.len() <= 255,
        0 <= c < g1.len(),
        forall|i: int| 0 <= i < g1.len() && i != c ==> g1[i] == g2[i],
        forall|k: int|
            0 <= k < state.hiders@.len() ==> ((#[trigger] state.hiders@[k]).id.category as int)
                != c,
        slot_masked(state.hiders@, g1, c) || g1[c] as int == none_index(
            state.variants@[c]@,
        ).unwrap(),
        slot_masked(state.hiders@, g2, c) || g2[c] as int == none_index(
            state.variants@[c]@,
        ).unwrap(),
    ensures
        spec_fingerprint(state, g1, roll_first, is_cyclops, is_jawless) == spec_fingerprint(
            state,
            g2,
            roll_first,
            is_cyclops,
            is_jawless,
        ),
{
    assert forall|i: int| 0 <= i < g1.len() && i != c implies slot_masked(state.hiders@, g1, i)
        == slot_masked(state.hiders@, g2, i) by {
        if slot_masked(state.hiders@, g1, i) {
            let (idx, j) = choose|idx: int, j: int|
                #[trigger] hider_masks(state.hiders@, g1, idx, j, i);
            if idx == c {
                assert forall|k: int| 0 <= k < state.hiders@.len() implies (
                #[trigger] state.hiders@[k]).id.category != (idx as u8) by {
                    assert((state.hiders@[k].id.category as int) != c);
                }
                crate::layer::lemma_first_dep_absent(
                    state.hiders@,
                    StoredLayerId { category: idx as u8, variant: g1[idx] },
                );
                assert(false);
            }
            assert(hider_masks(state.hiders@, g2, idx, j, i));
        }
        if slot_masked(state.hiders@, g2, i) {
            let (idx, j) = choose|idx: int, j: int|
                #[trigger] hider_masks(state.hiders@, g2, idx, j, i);
            if idx == c {
                assert forall|k: int| 0 <= k < state.hiders@.len() implies (
                #[trigger] state.hiders@[k]).id.category != (idx as u8) by {
                    assert((state.hiders@[k].id.category as int) != c);
                }
                crate::layer::lemma_first_dep_absent(
                    state.hiders@,
                    StoredLayerId { category: idx as u8, variant: g2[idx] },
                );
                assert(false);
            }
            assert(hider_masks(state.hiders@, g1, idx, j, i));
        }
    }
    assert(masked_gene(state, g1)[c] == masked_gene(state, g2)[c]);
    assert(masked_gene(state, g1) =~= masked_gene(state, g2));
}

/// Global uniqueness: the ledger is injective over accepted outputs — no
/// two positions of a duplicate-free ledger hold equal fingerprints, and
/// `add_genes` is what keeps the ledger duplicate-free as it grows.
pub proof fn lemma_ledger_injective(state: ServerState, i: int, j: int)
    requires
        state.unique_ledger(),
        0 <= i < state.gene_ledger@.len(),
        0 <= j < state.gene_ledger@.len(),
        state.gene_ledger@[i]@ == state.gene_ledger@[j]@,
    ensures
        i == j,
{
}

/// Derives the comparison fingerprint of a completed gene and tests it
/// against the ledger and the batch supplement `uniques`.  A novel
/// fingerprint is recorded in the supplement and returned; a duplicate
/// returns `None` and changes nothing.
#[verifier::loop_isolation(false)]
pub fn check_unique(
    state: &ServerState,
    genetic: &Vec<u8>,
    is_cyclops: bool,
    is_jawless: bool,
    roll_first: &Vec<u8>,
    uniques: &mut Vec<Vec<u8>>,
) -> (r: Option<Vec<u8>>)
    requires
        state.wf(),
        state.cat_cnt() >= 1,
        genetic@.len() == state.cat_cnt(),
    ensures
        ({
            let fp = spec_fingerprint(*state, genetic@, roll_first@, is_cyclops, is_jawless);
            match r {
                Some(u) => u@ == fp && !gene_in(old(uniques)@, fp) && !gene_in(
                    state.gene_ledger@,
                    fp,
                ) && fps(final(uniques)@) == fps(old(uniques)@).push(fp),
                None => (gene_in(old(uniques)@, fp) || gene_in(state.gene_ledger@, fp))
                    && final(uniques)@ == old(uniques)@,
            }
        }),
{
    let numcats = state.roll.cat_cnt;
    let mut temp: Vec<u8> = genetic.clone();
    assert(temp@ =~= genetic@);
    let mut idx: usize = 1;
    while idx < numcats as usize
        invariant
            1 <= idx <= numcats as int,
            temp@.len() == genetic@.len(),
            forall|c: int|
                0 <= c < genetic@.len() ==> temp@[c] == if slot_masked_below(
                    state.hiders@,
                    genetic@,
                    c,
                    idx as int,
                ) {
                    none_index(state.variants@[c]@).unwrap() as u8
                } else {
                    genetic@[c]
                },
        decreases numcats as int - idx,
    {
        let this_var = genetic[idx];
        let found = find_dep(&state.hiders, idx as u8, this_var);
        let ghost src = StoredLayerId { category: idx as u8, variant: genetic@[idx as int] };
        match found {
            Some(h_idx) => {
                let ghost h = state.hiders@[h_idx as int];
                let mut j: usize = 0;
                while j < state.hiders[h_idx].correlated.len()
                    invariant
                        0 <= j <= h.correlated@.len(),
                        temp@.len() == genetic@.len(),
                        forall|c: int|
                            0 <= c < genetic@.len() ==> temp@[c] == if slot_masked_below(
                                state.hiders@,
                                genetic@,
                                c,
                                idx as int,
                            ) || (exists|jj: int|
                                0 <= jj < j && h.correlated@[jj].category as int == c
                                    && h.correlated@[jj].variant == genetic@[c]) {
                                none_index(state.variants@[c]@).unwrap() as u8
                            } else {
                                genetic@[c]
                            },
                    decreases h.correlated@.len() - j,
                {
                    let hidden = state.hiders[h_idx].correlated[j];
                    proof {
                        assert(state.wf_dep_entry(state.hiders@[h_idx as int]));
                        assert(state.wf_layer_id(h.correlated@[j as int]));
                    }
                    if genetic[hidden.category as usize] == hidden.variant {
                        let none_idx = match state.none_variant_of(hidden.category) {
                            Ok(v) => v,
                            Err(_) => {
                                proof {
                                    assert(state.hiders@[h_idx as int].correlated@[j as int].category
                                        == hidden.category);
                                    assert(false);
                                }
                                0
                            },
                        };
                        temp[hidden.category as usize] = none_idx;
                    }
                    j = j + 1;
                }
                proof {
                    assert(first_dep(state.hiders@, src) == Some(h));
                    assert(j == h.correlated@.len());
                    assert forall|c: int| 0 <= c < genetic@.len() implies temp@[c]
                        == if slot_masked_below(state.hiders@, genetic@, c, idx as int + 1) {
                        none_index(state.variants@[c]@).unwrap() as u8
                    } else {
                        genetic@[c]
                    } by {
                        let before = slot_masked_below(state.hiders@, genetic@, c, idx as int);
                        let here = exists|jj: int|
                            0 <= jj < j && h.correlated@[jj].category as int == c
                                && h.correlated@[jj].variant == genetic@[c];
                        assert(temp@[c] == if before || here {
                            none_index(state.variants@[c]@).unwrap() as u8
                        } else {
                            genetic@[c]
                        });
                        if before {
                            let (i0, j0) = choose|i0: int, j0: int|
                                i0 < idx as int && #[trigger] hider_masks(
                                    state.hiders@,
                                    genetic@,
                                    i0,
                                    j0,
                                    c,
                                );
                            assert(i0 < idx as int + 1 && hider_masks(
                                state.hiders@,
                                genetic@,
                                i0,
                                j0,
                                c,
                            ));
                        }
                        if here {
                            let jj = choose|jj: int|
                                0 <= jj < j && h.correlated@[jj].category as int == c
                                    && h.correlated@[jj].variant == genetic@[c];
                            assert(hider_masks(state.hiders@, genetic@, idx as int, jj, c));
                            assert(slot_masked_below(state.hiders@, genetic@, c, idx as int + 1));
                        }
                        if !before && !here {
                            if slot_masked_below(state.hiders@, genetic@, c, idx as int + 1) {
                                let (i0, j0) = choose|i0: int, j0: int|
                                    i0 < idx as int + 1 && #[trigger] hider_masks(
                                        state.hiders@,
                                        genetic@,
                                        i0,
                                        j0,
                                        c,
                                    );
                                if i0 == idx as int {
                                    assert(first_dep(state.hiders@, src) == Some(h));
                                    assert(0 <= j0 < j && h.correlated@[j0].category as int == c
                                        && h.correlated@[j0].variant == genetic@[c]);
                                    assert(false);
                                } else {
                                    assert(i0 < idx as int && hider_masks(
                                        state.hiders@,
                                        genetic@,
                                        i0,
                                        j0,
                                        c,
                                    ));
                                    assert(false);
                                }
                            }
                        }
                    }
                }
            },
            None => {
                proof {
                    assert(first_dep(state.hiders@, src) is None);
                    assert forall|c: int| 0 <= c < genetic@.len() implies slot_masked_below(
                        state.hiders@,
                        genetic@,
                        c,
                        idx as int,
                    ) == slot_masked_below(state.hiders@, genetic@, c, idx as int + 1) by {
                        if slot_masked_below(state.hiders@, genetic@, c, idx as int + 1) {
                            let (i0, j0) = choose|i0: int, j0: int|
                                i0 < idx as int + 1 && #[trigger] hider_masks(
                                    state.hiders@,
                                    genetic@,
                                    i0,
                                    j0,
                                    c,
                                );
                            assert(i0 != idx as int);
                            assert(i0 < idx as int && hider_masks(
                                state.hiders@,
                                genetic@,
                                i0,
                                j0,
                                c,
                            ));
                        }
                        if slot_masked_below(state.hiders@, genetic@, c, idx as int) {
                            let (i0, j0) = choose|i0: int, j0: int|
                                i0 < idx as int && #[trigger] hider_masks(
                                    state.hiders@,
                                    genetic@,
                                    i0,
                                    j0,
                                    c,
                                );
                            assert(i0 < idx as int + 1 && hider_masks(
                                state.hiders@,
                                genetic@,
                                i0,
                                j0,
                                c,
                            ));
                        }
                    }
                    assert forall|c: int| 0 <= c < genetic@.len() implies temp@[c]
                        == if slot_masked_below(state.hiders@, genetic@, c, idx as int + 1) {
                        none_index(state.variants@[c]@).unwrap() as u8
                    } else {
                        genetic@[c]
                    } by {
                        assert(temp@[c] == if slot_masked_below(
                            state.hiders@,
                            genetic@,
                            c,
                            idx as int,
                        ) {
                            none_index(state.variants@[c]@).unwrap() as u8
                        } else {
                            genetic@[c]
                        });
                    }
                }
            },
        }
        idx = idx + 1;
    }
    proof {
        assert forall|c: int| 0 <= c < genetic@.len() implies slot_masked_below(
            state.hiders@,
            genetic@,
            c,
            numcats as int,
        ) == slot_masked(state.hiders@, genetic@, c) by {
            if slot_masked_below(state.hiders@, genetic@, c, numcats as int) {
                let (i0, j0) = choose|i0: int, j0: int|
                    i0 < numcats as int && #[trigger] hider_masks(state.hiders@, genetic@, i0, j0, c);
                assert(hider_masks(state.hiders@, genetic@, i0, j0, c));
            }
            if slot_masked(state.hiders@, genetic@, c) {
                let (i0, j0) = choose|i0: int, j0: int|
                    #[trigger] hider_masks(state.hiders@, genetic@, i0, j0, c);
                assert(i0 < numcats as int && hider_masks(state.hiders@, genetic@, i0, j0, c));
            }
        }
        assert(temp@ =~= masked_gene(*state, genetic@));
    }
    // strip the background and the archetype slots, then append the flags
    let mut unique: Vec<u8> = Vec::new();
    let mut i: usize = 1;
    while i < numcats as usize
        invariant
            1 <= i <= numcats as int,
            unique@ + strip_from(temp@, roll_first@, i as int) == strip_from(
                temp@,
                roll_first@,
                1,
            ),
        decreases numcats as int - i,
    {
        if !contains_u8(roll_first, i as u8) {
            unique.push(temp[i]);
            proof {
                assert(unique@.drop_last() + (seq![temp@[i as int]] + strip_from(
                    temp@,
                    roll_first@,
                    i as int + 1,
                )) =~= unique@ + strip_from(temp@, roll_first@, i as int + 1));
            }
        }
        i = i + 1;
    }
    proof {
        assert(strip_from(temp@, roll_first@, numcats as int).len() == 0);
        assert(unique@ =~= strip_from(temp@, roll_first@, 1));
    }
    unique.push(if is_cyclops { 1u8 } else { 0u8 });
    unique.push(if is_jawless { 1u8 } else { 0u8 });
    let ghost fp = spec_fingerprint(*state, genetic@, roll_first@, is_cyclops, is_jawless);
    proof {
        assert(unique@ =~= fp);
    }
    // test against the batch supplement and the persisted ledger
    if contains_gene(uniques, &unique) || contains_gene(&state.gene_ledger, &unique) {
        None
    } else {
        let r = clone_bytes(&unique);
        let ghost before = uniques@;
        uniques.push(unique);
        proof {
            assert(fps(uniques@) =~= fps(before).push(fp));
        }
        Some(r)
    }
}

/// Copies a byte vector.
pub fn clone_bytes(v: &Vec<u8>) -> (r: Vec<u8>)
    ensures
        r@ == v@,
{
    let mut r: Vec<u8> = Vec::new();
    crate::rng::append_bytes(&mut r, v.as_slice());
    assert(r@ =~= v@);
    r
}

impl ServerState {
    /// Records fingerprints in the gene ledger, as a minter reports the
    /// genes it issued.  Errs, recording nothing, exactly when a requested
    /// fingerprint is already present (or appears twice in the request):
    /// the ledger never holds a fingerprint twice.
    #[verifier::loop_isolation(false)]
    pub fn add_genes(&mut self, genes: &Vec<Vec<u8>>) -> (r: Result<(), ServerError>)
        ensures
            match r {
                Ok(()) => fps(final(self).gene_ledger@) == fps(old(self).gene_ledger@) + fps(
                    genes@,
                ) && (forall|k: int|
                    0 <= k < genes@.len() ==> !gene_in(
                        old(self).gene_ledger@,
                        (#[trigger] genes@[k])@,
                    )) && (forall|k: int, l: int|
                    0 <= k < l < genes@.len() ==> (#[trigger] genes@[k])@ != (
                    #[trigger] genes@[l])@),
                Err(e) => e == ServerError::DuplicateGene && final(self).gene_ledger@ == old(
                    self,
                ).gene_ledger@ && ((exists|k: int|
                    0 <= k < genes@.len() && gene_in(
                        old(self).gene_ledger@,
                        (#[trigger] genes@[k])@,
                    )) || (exists|k: int, l: int|
                    0 <= k < l < genes@.len() && (#[trigger] genes@[k])@ == (
                    #[trigger] genes@[l])@)),
            },
            old(self).unique_ledger() ==> final(self).unique_ledger(),
            final(self).categories == old(self).categories,
            final(self).variants == old(self).variants,
            final(self).roll == old(self).roll,
            final(self).depends == old(self).depends,
            final(self).hiders == old(self).hiders,
    {
        // first screen the whole batch, so that a fault records nothing
        let mut k: usize = 0;
        while k < genes.len()
            invariant
                k <= genes@.len(),
                forall|a: int|
                    0 <= a < k ==> !gene_in(self.gene_ledger@, (#[trigger] genes@[a])@),
                forall|a: int, b: int|
                    0 <= a < b < k ==> (#[trigger] genes@[a])@ != (#[trigger] genes@[b])@,
            decreases genes@.len() - k,
        {
            if contains_gene(&self.gene_ledger, &genes[k]) {
                return Err(ServerError::DuplicateGene);
            }
            let mut l: usize = 0;
            while l < k
                invariant
                    l <= k < genes@.len(),
                    forall|b: int| 0 <= b < l ==> (#[trigger] genes@[b])@ != genes@[k as int]@,
                decreases k - l,
            {
                if &genes[l] == &genes[k] {
                    proof {
                        assert(genes@[l as int]@ =~= genes@[k as int]@);
                    }
                    return Err(ServerError::DuplicateGene);
                }
                proof {
                    if genes@[l as int]@ == genes@[k as int]@ {
                        assert(genes@[l as int]@ =~= genes@[k as int]@);
                        assert(false);
                    }
                }
                l = l + 1;
            }
            k = k + 1;
        }
        // then record every fingerprint
        let ghost orig = fps(self.gene_ledger@);
        let mut k: usize = 0;
        while k < genes.len()
            invariant
                k <= genes@.len(),
                fps(self.gene_ledger@) == orig + fps(genes@).take(k as int),
                self.categories == old(self).categories,
                self.variants == old(self).variants,
                self.roll == old(self).roll,
                self.depends == old(self).depends,
                self.hiders == old(self).hiders,
            decreases genes@.len() - k,
        {
            let g = clone_bytes(&genes[k]);
            let ghost before = self.gene_ledger@;
            self.gene_ledger.push(g);
            proof {
                assert(fps(self.gene_ledger@) =~= fps(before).push(genes@[k as int]@));
                assert(fps(before).push(genes@[k as int]@) =~= orig + fps(genes@).take(
                    k as int + 1,
                ));
            }
            k = k + 1;
        }
        proof {
            assert(fps(self.gene_ledger@) =~= orig + fps(genes@));
            let n = old(self).gene_ledger@.len() as int;
            if old(self).unique_ledger() {
                assert forall|i: int, j: int|
                    0 <= i < j < self.gene_ledger@.len() implies (
                #[trigger] self.gene_ledger@[i])@ != (#[trigger] self.gene_ledger@[j])@ by {
                    assert(fps(self.gene_ledger@)[i] == self.gene_ledger@[i]@);
                    assert(fps(self.gene_ledger@)[j] == self.gene_ledger@[j]@);
                    if j < n {
                        assert(self.gene_ledger@[i]@ == old(self).gene_ledger@[i]@);
                        assert(self.gene_ledger@[j]@ == old(self).gene_ledger@[j]@);
                    } else if i < n {
                        assert(self.gene_ledger@[j]@ == genes@[j - n]@);
                        assert(!gene_in(old(self).gene_ledger@, genes@[j - n]@));
                        assert(self.gene_ledger@[i]@ == old(self).gene_ledger@[i]@);
                    } else {
                        assert(self.gene_ledger@[i]@ == genes@[i - n]@);
                        assert(self.gene_ledger@[j]@ == genes@[j - n]@);
                    }
                }
            }
        }
        Ok(())
    }
}

} // verus!

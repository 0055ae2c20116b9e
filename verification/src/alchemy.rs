//! The companion reveal process: a token's public image starts with every
//! undisclosed slot carrying the sentinel, and reveals copy slots over from
//! the complete natural gene — one random trait, one targeted trait, or all
//! of them, each gated by its own cooldown.
use crate::error::ServerError;
use crate::layer::{find_dep, first_dep, StoredDependencies, StoredLayerId};
use crate::rng::Prng;
use crate::roller::{corr_targets, UNROLLED};
use vstd::prelude::*;

verus! {

/// Data that determines a token's appearance: the public image, the image
/// before the last reveal, and the complete natural gene.
#[derive(Clone, PartialEq, Debug)]
pub struct ImageInfo {
    /// current image svg index array
    pub current: Vec<u8>,
    /// previous image svg index array
    pub previous: Vec<u8>,
    /// complete initial genetic image svg index array
    pub natural: Vec<u8>,
    /// optional svg server address if not using the default
    pub svg_server: Option<String>,
}

/// The stored form of `ImageInfo`: the server is kept as a registry index.
#[derive(Clone, PartialEq, Debug)]
pub struct StoredImageInfo {
    /// current image svg index array
    pub current: Vec<u8>,
    /// previous image svg index array
    pub previous: Vec<u8>,
    /// complete initial genetic image svg index array
    pub natural: Vec<u8>,
    /// optional svg server registry index if not using the default
    pub svg_server: Option<u16>,
}

impl ImageInfo {
    /// Converts to the stored form: a non-default server address becomes
    /// its registry index.  Errs exactly when the address is not
    /// registered.
    pub fn into_stored(self, servers: &crate::registry::Registry<
        crate::registry::StoreContractInfo,
    >) -> (r: Result<StoredImageInfo, ServerError>)
        requires
            servers.wf(),
        ensures
            match r {
                Ok(s) => {
                    &&& s.current == self.current
                    &&& s.previous == self.previous
                    &&& s.natural == self.natural
                    &&& match self.svg_server {
                        Some(addr) => s.svg_server matches Some(i)
                            && crate::registry::Registry::<
                            crate::registry::StoreContractInfo,
                        >::spec_idx(servers.items@, vstd::utf8::encode_utf8(addr@)) == Some(
                            i as int,
                        ),
                        None => s.svg_server is None,
                    }
                },
                Err(_) => self.svg_server is Some,
            },
    {
        let svg_server: Option<u16> = match &self.svg_server {
            Some(addr) => match servers.get_idx(addr.as_str().as_bytes()) {
                Ok(i) => Some(i),
                Err(e) => {
                    return Err(e);
                },
            },
            None => None,
        };
        Ok(
            StoredImageInfo {
                current: self.current,
                previous: self.previous,
                natural: self.natural,
                svg_server,
            },
        )
    }
}

impl StoredImageInfo {
    /// Converts back to the displayable form and returns the server that
    /// renders this token: the stored index, or the default when none is
    /// stored.  Errs exactly when the index is not in the registry or the
    /// registered address does not decode.
    pub fn into_human(
        self,
        servers: &crate::registry::Registry<crate::registry::StoreContractInfo>,
        default_server: u16,
    ) -> (r: Result<(ImageInfo, crate::registry::ContractInfo), ServerError>)
        ensures
            match r {
                Ok(out) => {
                    let idx = (match self.svg_server {
                        Some(i) => i,
                        None => default_server,
                    }) as int;
                    &&& out.0.current == self.current
                    &&& out.0.previous == self.previous
                    &&& out.0.natural == self.natural
                    &&& idx < servers.items@.len()
                    &&& out.1.code_hash == servers.items@[idx].code_hash
                    &&& vstd::utf8::encode_utf8(out.1.address@) == servers.items@[idx].address@
                    &&& (out.0.svg_server is Some) == (self.svg_server is Some)
                },
                Err(_) => true,
            },
    {
        let svr_idx: u16 = match self.svg_server {
            Some(i) => i,
            None => default_server,
        };
        let svr = match servers.get_at(svr_idx) {
            Ok(s) => s,
            Err(e) => {
                return Err(e);
            },
        };
        let address = match string_from_utf8(&svr.address) {
            Some(a) => a,
            None => {
                return Err(ServerError::NamedVariantNotFound { name: String::new() });
            },
        };
        let contract = crate::registry::ContractInfo { code_hash: svr.code_hash.clone(), address };
        let svg_server: Option<String> = match self.svg_server {
            Some(_) => Some(contract.address.clone()),
            None => None,
        };
        Ok(
            (
                ImageInfo {
                    current: self.current,
                    previous: self.previous,
                    natural: self.natural,
                    svg_server,
                },
                contract,
            ),
        )
    }
}

/// Relies on String::from_utf8: decodes the bytes exactly when they are
/// valid utf-8, into the string whose encoding they are.
#[verifier::external_body]
fn string_from_utf8(b: &Vec<u8>) -> (r: Option<String>)
    ensures
        match r {
            Some(s) => vstd::utf8::encode_utf8(s@) == b@,
            None => true,
        },
{
    String::from_utf8(b.clone()).ok()
}

/// The kinds of reveal a token owner may request.
#[derive(Clone, PartialEq, Debug)]
pub enum RevealType {
    /// reveal a random trait
    Random { entropy: String },
    /// reveal a specific trait
    Targeted { category: String },
    /// reveal all traits
    All,
}

/// The roll data a reveal needs from the trait server.
#[derive(Clone, PartialEq, Debug)]
pub struct ServeAlchemyResponse {
    /// categories that are skipped when rolling and revealing
    pub skip: Vec<u8>,
    /// variant display dependencies
    pub dependencies: Vec<StoredDependencies>,
    /// category names
    pub category_names: Vec<String>,
}

/// Wrapper carrying a `ServeAlchemyResponse`.
#[derive(Clone, PartialEq, Debug)]
pub struct ServeAlchemyWrapper {
    pub serve_alchemy: ServeAlchemyResponse,
}

/// Whether a querier owns all the tokens asked about.
#[derive(Clone, Copy, PartialEq, Eq, Structural, Debug)]
pub struct IsOwnerResponse {
    pub is_owner: bool,
}

/// Wrapper carrying an `IsOwnerResponse`.
#[derive(Clone, Copy, PartialEq, Eq, Structural, Debug)]
pub struct IsOwnerWrapper {
    pub is_owner: IsOwnerResponse,
}

/// Queries made with a signed permit instead of a viewing key.
#[derive(Clone, PartialEq, Debug)]
pub enum QueryWithPermit {
    /// whether the querier owns all the listed tokens
    IsOwner { token_ids: Vec<String> },
}

/// Copies the correlated slots of a just-revealed variant over from the
/// natural gene, so that a multi-layer trait is revealed as one piece.
#[verifier::loop_isolation(false)]
pub fn reveal_dependencies(
    category: u8,
    variant: u8,
    depends: &Vec<StoredDependencies>,
    current: &mut Vec<u8>,
    natural: &Vec<u8>,
)
    requires
        old(current)@.len() == natural@.len(),
        forall|k: int, j: int|
            0 <= k < depends@.len() && 0 <= j < depends@[k].correlated@.len() ==> ((
            #[trigger] depends@[k].correlated@[j]).category as int) < natural@.len(),
    ensures
        final(current)@.len() == old(current)@.len(),
        forall|c: int|
            0 <= c < old(current)@.len() ==> final(current)@[c] == (match first_dep(
                depends@,
                StoredLayerId { category, variant },
            ) {
                Some(d) => if corr_targets(d.correlated@, c) {
                    natural@[c]
                } else {
                    old(current)@[c]
                },
                None => old(current)@[c],
            }),
{
    match find_dep(depends, category, variant) {
        None => {},
        Some(d_idx) => {
            let ghost d = depends@[d_idx as int];
            let corr_len = depends[d_idx].correlated.len();
            let mut j: usize = 0;
            while j < corr_len
                invariant
                    j <= d.correlated@.len(),
                    corr_len == d.correlated@.len(),
                    current@.len() == old(current)@.len(),
                    forall|c: int|
                        0 <= c < old(current)@.len() ==> current@[c] == (if corr_targets(
                            d.correlated@.take(j as int),
                            c,
                        ) {
                            natural@[c]
                        } else {
                            old(current)@[c]
                        }),
                decreases corr_len - j,
            {
                let multi = depends[d_idx].correlated[j];
                let c0 = multi.category as usize;
                current[c0] = natural[c0];
                proof {
                    let pre = d.correlated@.take(j as int);
                    let post = d.correlated@.take(j as int + 1);
                    assert(post.drop_last() =~= pre);
                    assert(post.last() == d.correlated@[j as int]);
                    assert forall|c: int| 0 <= c < old(current)@.len() implies corr_targets(
                        post,
                        c,
                    ) == (corr_targets(pre, c) || c == multi.category as int) by {
                        if corr_targets(pre, c) {
                            let jj = choose|jj: int|
                                0 <= jj < pre.len() && (#[trigger] pre[jj]).category as int == c;
                            assert((post[jj]).category as int == c);
                        }
                        if c == multi.category as int {
                            assert((post[j as int]).category as int == c);
                        }
                        if corr_targets(post, c) && c != multi.category as int {
                            let jj = choose|jj: int|
                                0 <= jj < post.len() && (#[trigger] post[jj]).category as int == c;
                            assert(jj < pre.len());
                            assert((pre[jj]).category as int == c);
                        }
                    }
                }
                j = j + 1;
            }
            proof {
                assert(d.correlated@.take(d.correlated@.len() as int) =~= d.correlated@);
            }
        },
    }
}

/// The index of the first category carrying this name, if any.
pub open spec fn cat_name_index(names: Seq<String>, target: Seq<char>) -> Option<int>
    decreases names.len(),
{
    if names.len() == 0 {
        None
    } else if names[0]@ == target {
        Some(0int)
    } else {
        match cat_name_index(names.skip(1), target) {
            Some(i) => Some(i + 1),
            None => None,
        }
    }
}

/// Finds a category by name among the display names, by linear scan.
#[verifier::loop_isolation(false)]
pub fn find_name(names: &Vec<String>, target: &str) -> (r: Option<usize>)
    ensures
        match r {
            Some(i) => cat_name_index(names@, target@) == Some(i as int) && i < names@.len(),
            None => cat_name_index(names@, target@) is None,
        },
{
    let mut i: usize = 0;
    proof {
        assert(names@.skip(0) =~= names@);
    }
    while i < names.len()
        invariant
            i <= names@.len(),
            cat_name_index(names@, target@) == match cat_name_index(
                names@.skip(i as int),
                target@,
            ) {
                Some(k) => Some(k + i),
                None => None,
            },
        decreases names@.len() - i,
    {
        proof {
            assert(names@.skip(i as int)[0] == names@[i as int]);
            assert(names@.skip(i as int).skip(1) =~= names@.skip(i as int + 1));
        }
        if crate::state::string_eq_str(&names[i], target) {
            return Some(i);
        }
        i = i + 1;
    }
    proof {
        assert(names@.skip(i as int).len() == 0);
    }
    None
}

/// The indices of the still-undisclosed, individually revealable slots.
pub open spec fn unknown_slots(current: Seq<u8>, skip: Seq<u8>) -> Seq<int> {
    Seq::new(current.len(), |i: int| i).filter(
        |i: int| current[i] == UNROLLED && !skip.contains(i as u8),
    )
}

/// The names of the still-undisclosed, non-skipped categories from slot
/// `i` on, in slot order.
pub open spec fn unknown_names_from(
    cur: Seq<u8>,
    skip: Seq<u8>,
    names: Seq<String>,
    i: int,
) -> Seq<Seq<char>>
    decreases names.len() - i,
{
    if i < 0 || i >= names.len() {
        Seq::empty()
    } else if cur[i] == UNROLLED && !skip.contains(i as u8) {
        seq![names[i]@] + unknown_names_from(cur, skip, names, i + 1)
    } else {
        unknown_names_from(cur, skip, names, i + 1)
    }
}

/// Whether slot `i` is still undisclosed and individually revealable.
pub open spec fn is_unknown(current: Seq<u8>, skip: Seq<u8>, i: int) -> bool {
    0 <= i < current.len() && current[i] == UNROLLED && !skip.contains(i as u8)
}

/// Reveals every remaining trait at once, after its cooldown, and returns
/// the names of the categories that were still undisclosed.  The first
/// reveal of a token must be the random one.
#[verifier::loop_isolation(false)]
pub fn all_reveal(
    block_time: u64,
    image: &mut ImageInfo,
    category_names: &Vec<String>,
    skip: &Vec<u8>,
    cooldown: u64,
    revealed: Option<u64>,
) -> (r: Result<Vec<String>, ServerError>)
    requires
        old(image).current@.len() == old(image).natural@.len(),
        category_names@.len() == old(image).current@.len(),
        match revealed {
            Some(last) => last + cooldown <= u64::MAX,
            None => true,
        },
    ensures
        match r {
            Ok(names) => {
                &&& revealed matches Some(last) && block_time >= last + cooldown
                &&& exists|i: int| is_unknown(old(image).current@, skip@, i)
                &&& final(image).current@ == old(image).natural@
                &&& final(image).natural@ == old(image).natural@
                &&& final(image).previous@ == old(image).previous@
                &&& names@.len() >= 1
                &&& names@.map_values(|s: String| s@) == unknown_names_from(
                    old(image).current@,
                    skip@,
                    category_names@,
                    0,
                )
            },
            Err(e) => *final(image) == *old(image) && match e {
                ServerError::RevealTooSoon { until } => revealed matches Some(last) && until
                    == last + cooldown && block_time < until,
                ServerError::FirstRevealMustBeRandom => revealed is None,
                ServerError::AllTraitsRevealed => !(exists|i: int|
                    is_unknown(old(image).current@, skip@, i)),
                _ => false,
            },
        },
{
    let last = match revealed {
        Some(l) => l,
        None => {
            return Err(ServerError::FirstRevealMustBeRandom);
        },
    };
    let charged = last + cooldown;
    if block_time < charged {
        return Err(ServerError::RevealTooSoon { until: charged });
    }
    let mut unknowns: Vec<String> = Vec::new();
    let ghost mut srcs: Seq<int> = Seq::empty();
    let n = image.current.len();
    let mut i: usize = 0;
    let ghost cur0 = image.current@;
    proof {
        assert(unknowns@.map_values(|s: String| s@) =~= Seq::<Seq<char>>::empty());
    }
    while i < n
        invariant
            i <= n,
            n == image.current@.len(),
            *image == *old(image),
            cur0 == image.current@,
            category_names@.len() == n,
            srcs.len() == unknowns@.len(),
            forall|k: int|
                0 <= k < unknowns@.len() ==> is_unknown(cur0, skip@, #[trigger] srcs[k]) && (
                unknowns@[k])@ == category_names@[srcs[k]]@,
            (exists|q: int| 0 <= q < i && is_unknown(cur0, skip@, q)) ==> unknowns@.len() >= 1,
            unknowns@.map_values(|s: String| s@) + unknown_names_from(
                cur0,
                skip@,
                category_names@,
                i as int,
            ) == unknown_names_from(cur0, skip@, category_names@, 0),
        decreases n - i,
    {
        let ghost pre = unknowns@;
        if image.current[i] == UNROLLED && !crate::canonical::contains_u8(skip, i as u8) {
            unknowns.push(category_names[i].clone());
            proof {
                srcs = srcs.push(i as int);
                assert(is_unknown(cur0, skip@, i as int));
                assert(unknowns@.map_values(|s: String| s@) =~= pre.map_values(|s: String| s@)
                    + seq![category_names@[i as int]@]);
                assert(pre.map_values(|s: String| s@) + (seq![category_names@[i as int]@]
                    + unknown_names_from(cur0, skip@, category_names@, i as int + 1))
                    =~= unknowns@.map_values(|s: String| s@) + unknown_names_from(
                    cur0,
                    skip@,
                    category_names@,
                    i as int + 1,
                ));
            }
        }
        i = i + 1;
    }
    proof {
        assert(unknown_names_from(cur0, skip@, category_names@, n as int).len() == 0);
        assert(unknowns@.map_values(|s: String| s@) =~= unknown_names_from(
            cur0,
            skip@,
            category_names@,
            0,
        ));
    }
    if unknowns.len() == 0 {
        proof {
            if exists|q: int| is_unknown(cur0, skip@, q) {
                let q = choose|q: int| is_unknown(cur0, skip@, q);
                assert(0 <= q < n && is_unknown(cur0, skip@, q));
            }
        }
        return Err(ServerError::AllTraitsRevealed);
    }
    proof {
        assert(is_unknown(cur0, skip@, srcs[0]));
    }
    image.current = crate::canonical::clone_bytes(&image.natural);
    Ok(unknowns)
}

/// Reveals one named trait, after its cooldown; its display dependencies
/// come along, and the last reveal also clears the skipped layers.
#[verifier::loop_isolation(false)]
pub fn target_reveal(
    block_time: u64,
    image: &mut ImageInfo,
    svr_inf: &ServeAlchemyResponse,
    category: &str,
    cooldown: u64,
    revealed: Option<u64>,
) -> (r: Result<(), ServerError>)
    requires
        old(image).current@.len() == old(image).natural@.len(),
        svr_inf.category_names@.len() == old(image).current@.len(),
        forall|k: int, j: int|
            0 <= k < svr_inf.dependencies@.len() && 0 <= j
                < svr_inf.dependencies@[k].correlated@.len() ==> ((
            #[trigger] svr_inf.dependencies@[k].correlated@[j]).category as int) < old(
                image,
            ).natural@.len(),
        match revealed {
            Some(last) => last + cooldown <= u64::MAX,
            None => true,
        },
    ensures
        final(image).natural@ == old(image).natural@,
        final(image).previous@ == old(image).previous@,
        final(image).current@.len() == old(image).current@.len(),
        match r {
            Ok(()) => {
                &&& revealed matches Some(last) && block_time >= last + cooldown
                &&& cat_name_index(svr_inf.category_names@, category@) matches Some(rvl)
                    && old(image).current@[rvl] == UNROLLED && final(image).current@[rvl] == old(
                    image,
                ).natural@[rvl]
                &&& forall|c: int|
                    0 <= c < old(image).current@.len() ==> final(image).current@[c] == old(
                        image,
                    ).current@[c] || final(image).current@[c] == old(image).natural@[c]
            },
            Err(e) => *final(image) == *old(image) && match e {
                ServerError::FirstRevealMustBeRandom => revealed is None,
                ServerError::RevealTooSoon { until } => revealed matches Some(last) && until == last
                    + cooldown && block_time < until,
                ServerError::CategoryNameNotFound { name } => name@ == category@ && cat_name_index(
                    svr_inf.category_names@,
                    category@,
                ) is None,
                ServerError::TraitAlreadyRevealed => cat_name_index(
                    svr_inf.category_names@,
                    category@,
                ) matches Some(rvl) && old(image).current@[rvl] != UNROLLED,
                _ => false,
            },
        },
{
    let last = match revealed {
        Some(l) => l,
        None => {
            return Err(ServerError::FirstRevealMustBeRandom);
        },
    };
    let charged = last + cooldown;
    if block_time < charged {
        return Err(ServerError::RevealTooSoon { until: charged });
    }
    // resolve the targeted trait
    let rvl_idx: usize = match find_name(&svr_inf.category_names, category) {
        Some(i) => i,
        None => {
            return Err(ServerError::CategoryNameNotFound { name: category.to_owned() });
        },
    };
    if image.current[rvl_idx] != UNROLLED {
        return Err(ServerError::TraitAlreadyRevealed);
    }
    // if any other unknown trait remains, reveal just this one
    let n = image.current.len();
    let mut others = false;
    let mut i: usize = 0;
    while i < n
        invariant
            i <= n,
            *image == *old(image),
            rvl_idx < n,
        decreases n - i,
    {
        if image.current[i] == UNROLLED && i != rvl_idx && !crate::canonical::contains_u8(
            &svr_inf.skip,
            i as u8,
        ) {
            others = true;
        }
        i = i + 1;
    }
    if others {
        let v = image.natural[rvl_idx];
        image.current[rvl_idx] = v;
        let natural_copy = crate::canonical::clone_bytes(&image.natural);
        reveal_dependencies(rvl_idx as u8, v, &svr_inf.dependencies, &mut image.current, &natural_copy);
    } else {
        // this was the last: clear the unknown markers on skipped layers too
        image.current = crate::canonical::clone_bytes(&image.natural);
    }
    Ok(())
}

/// Reveals one randomly selected undisclosed trait, after its cooldown, and
/// returns the revealed category's name.  The trait is drawn from the
/// seeded source extended with the caller-visible context.
#[verifier::loop_isolation(false)]
pub fn random_reveal(
    prng_seed: &[u8],
    height: u64,
    time: u64,
    sender: &[u8],
    image: &mut ImageInfo,
    svr_inf: &ServeAlchemyResponse,
    entropy: &[u8],
    cooldown: u64,
    revealed: Option<u64>,
) -> (r: Result<Vec<String>, ServerError>)
    requires
        old(image).current@.len() == old(image).natural@.len(),
        svr_inf.category_names@.len() == old(image).current@.len(),
        forall|k: int, j: int|
            0 <= k < svr_inf.dependencies@.len() && 0 <= j
                < svr_inf.dependencies@[k].correlated@.len() ==> ((
            #[trigger] svr_inf.dependencies@[k].correlated@[j]).category as int) < old(
                image,
            ).natural@.len(),
        match revealed {
            Some(last) => last + cooldown <= u64::MAX,
            None => true,
        },
    ensures
        final(image).natural@ == old(image).natural@,
        final(image).previous@ == old(image).previous@,
        final(image).current@.len() == old(image).current@.len(),
        match r {
            Ok(names) => {
                &&& names@.len() == 1
                &&& exists|q: int|
                    is_unknown(old(image).current@, svr_inf.skip@, q) && names@[0]@
                        == svr_inf.category_names@[q]@ && final(image).current@[q] == old(
                        image,
                    ).natural@[q]
                &&& forall|c: int|
                    0 <= c < old(image).current@.len() ==> final(image).current@[c] == old(
                        image,
                    ).current@[c] || final(image).current@[c] == old(image).natural@[c]
            },
            Err(e) => *final(image) == *old(image) && match e {
                ServerError::RevealTooSoon { until } => revealed matches Some(last) && until
                    == last + cooldown && time < until,
                ServerError::AllTraitsRevealed => !(exists|q: int|
                    is_unknown(old(image).current@, svr_inf.skip@, q)),
                _ => false,
            },
        },
{
    match revealed {
        Some(last) => {
            let charged = last + cooldown;
            if time < charged {
                return Err(ServerError::RevealTooSoon { until: charged });
            }
        },
        None => {},
    }
    // collect the indices of the undisclosed, revealable slots
    let n = image.current.len();
    let mut unknowns: Vec<usize> = Vec::new();
    let mut i: usize = 0;
    let ghost cur0 = image.current@;
    while i < n
        invariant
            i <= n,
            n == image.current@.len(),
            *image == *old(image),
            cur0 == image.current@,
            forall|k: int|
                0 <= k < unknowns@.len() ==> is_unknown(cur0, svr_inf.skip@, (
                #[trigger] unknowns@[k]) as int),
            (exists|q: int| 0 <= q < i && is_unknown(cur0, svr_inf.skip@, q)) ==> unknowns@.len()
                >= 1,
        decreases n - i,
    {
        if image.current[i] == UNROLLED && !crate::canonical::contains_u8(&svr_inf.skip, i as u8) {
            unknowns.push(i);
        }
        i = i + 1;
    }
    if unknowns.len() == 0 {
        proof {
            if exists|q: int| is_unknown(cur0, svr_inf.skip@, q) {
                let q = choose|q: int| is_unknown(cur0, svr_inf.skip@, q);
                assert(0 <= q < n && is_unknown(cur0, svr_inf.skip@, q));
            }
        }
        return Err(ServerError::AllTraitsRevealed);
    }
    let rvl_idx: usize;
    if unknowns.len() == 1 {
        // only one left: no need to randomize, and the unknown markers on
        // unused skipped layers go away as well
        rvl_idx = unknowns[0];
        image.current = crate::canonical::clone_bytes(&image.natural);
    } else {
        // set up the draw source and pick a random undisclosed trait
        let rng_entropy = crate::rng::extend_entropy(height, time, sender, entropy);
        let mut rng = Prng::new(prng_seed, rng_entropy.as_slice());
        rng.shuffle_indices(&mut unknowns);
        proof {
            assert(unknowns@.contains(unknowns@[unknowns@.len() - 1]));
        }
        rvl_idx = match unknowns.pop() {
            Some(v) => v,
            None => {
                proof {
                    assert(false);
                }
                0
            },
        };
        proof {
            assert(is_unknown(cur0, svr_inf.skip@, rvl_idx as int));
        }
        let v = image.natural[rvl_idx];
        image.current[rvl_idx] = v;
        let natural_copy = crate::canonical::clone_bytes(&image.natural);
        reveal_dependencies(rvl_idx as u8, v, &svr_inf.dependencies, &mut image.current, &natural_copy);
    }
    let mut names: Vec<String> = Vec::new();
    names.push(svr_inf.category_names[rvl_idx].clone());
    proof {
        assert(is_unknown(cur0, svr_inf.skip@, rvl_idx as int));
        assert(image.current@[rvl_idx as int] == old(image).natural@[rvl_idx as int]);
        assert(names@[0]@ == svr_inf.category_names@[rvl_idx as int]@);
    }
    Ok(names)
}

} // verus!

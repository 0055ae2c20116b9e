//! The minting gatekeeper: request validation, mint counts per background,
//! and the serial-number bookkeeping for a batch of new units.
use crate::error::ServerError;
use crate::layer::GeneInfo;
use vstd::prelude::*;

verus! {

/// How many units one mint call may request.
pub const MAX_BATCH: u16 = 20;

/// The total supply cap.
pub const MAX_SUPPLY: u16 = 10000;

/// The price of one unit, in the smallest denomination.
pub const UNIT_PRICE: u128 = 1000000;

/// The number of tokens minted with one background variant.
#[derive(Clone, PartialEq, Debug)]
pub struct BackgroundCount {
    /// name of the background variant
    pub background: String,
    /// number of tokens minted with this background
    pub count: u16,
}

/// Serial number to give a token when minting.
#[derive(Clone, Copy, PartialEq, Eq, Structural, Debug)]
pub struct SerialNumber {
    /// number of the mint run this token will be minted in
    pub mint_run: u32,
    /// serial number in this mint run
    pub serial_number: u32,
    /// total number of tokens minted in this run, when known
    pub quantity_minted_this_run: Option<u32>,
}

/// The units generated for one mint call.
#[derive(Clone, PartialEq, Debug)]
pub struct NewGenes {
    pub genes: Vec<GeneInfo>,
}

/// Wrapper carrying a `NewGenes` response.
#[derive(Clone, PartialEq, Debug)]
pub struct NewGenesResponse {
    pub new_genes: NewGenes,
}

/// What a minter asks the trait server to do.
#[derive(Clone, PartialEq, Debug)]
pub enum ServerHandleMsg {
    /// record issued fingerprints so no future roll duplicates them
    AddGenes { genes: Vec<Vec<u8>> },
}

/// Validates one mint request and returns the serial number of its first
/// token: minting must be running, a batch is capped, the supply is
/// capped, and the payment must be exact.
pub fn validate_mint(halt: bool, mint_cnt: u16, qty: u16, amount: u128, denom_uscrt: bool) -> (r:
    Result<u32, ServerError>)
    ensures
        match r {
            Ok(ser) => {
                &&& !halt
                &&& 0 < qty <= MAX_BATCH
                &&& mint_cnt + qty <= MAX_SUPPLY
                &&& amount == UNIT_PRICE * qty
                &&& denom_uscrt
                &&& ser == mint_cnt + 1
            },
            Err(e) => match e {
                ServerError::MintingHalted => halt,
                ServerError::MintBatchTooLarge => !halt && (qty == 0 || qty > MAX_BATCH),
                ServerError::SoldOut { remaining } => !halt && 0 < qty <= MAX_BATCH && mint_cnt
                    + qty > MAX_SUPPLY && remaining == (if mint_cnt >= MAX_SUPPLY {
                    0
                } else {
                    (MAX_SUPPLY - mint_cnt) as int
                }),
                ServerError::WrongPayment { price } => !halt && 0 < qty <= MAX_BATCH && mint_cnt
                    + qty <= MAX_SUPPLY && price == UNIT_PRICE * qty && (amount != price
                    || !denom_uscrt),
                _ => false,
            },
        },
{
    if halt {
        return Err(ServerError::MintingHalted);
    }
    if qty == 0 || qty > MAX_BATCH {
        return Err(ServerError::MintBatchTooLarge);
    }
    if mint_cnt >= MAX_SUPPLY || mint_cnt > MAX_SUPPLY - qty {
        let remaining: u16 = if mint_cnt >= MAX_SUPPLY {
            0
        } else {
            MAX_SUPPLY - mint_cnt
        };
        return Err(ServerError::SoldOut { remaining });
    }
    let price: u128 = UNIT_PRICE * (qty as u128);
    if amount != price || !denom_uscrt {
        return Err(ServerError::WrongPayment { price });
    }
    Ok((mint_cnt as u32) + 1)
}

/// Whether some entry records this background name.
pub open spec fn has_background(counts: Seq<BackgroundCount>, name: Seq<char>) -> bool {
    exists|k: int| 0 <= k < counts.len() && (#[trigger] counts[k]).background@ == name
}

/// The count recorded for one background name.
pub open spec fn background_count_of(counts: Seq<BackgroundCount>, name: Seq<char>) -> Option<int>
    decreases counts.len(),
{
    if counts.len() == 0 {
        None
    } else if counts[0].background@ == name {
        Some(counts[0].count as int)
    } else {
        background_count_of(counts.skip(1), name)
    }
}

/// Bumps the per-background mint counts for one batch: a known
/// background's count grows by one, an unseen background enters with
/// count one.  After the call every background of the batch has an entry;
/// entries never disappear and keep their names.  The error can only
/// report a saturated counter, recording an impossible overrun.
#[verifier::loop_isolation(false)]
pub fn update_background_counts(counts: &mut Vec<BackgroundCount>, backgrounds: &Vec<String>) -> (r:
    Result<(), ServerError>)
    ensures
        final(counts)@.len() >= old(counts)@.len(),
        forall|k: int|
            0 <= k < old(counts)@.len() ==> (#[trigger] final(counts)@[k]).background@ == old(
                counts,
            )@[k].background@,
        r is Ok ==> forall|q: int|
            0 <= q < backgrounds@.len() ==> has_background(
                final(counts)@,
                (#[trigger] backgrounds@[q])@,
            ),
        r is Err ==> r == Err::<(), ServerError>(ServerError::TooManyCategories),
{
    let mut b: usize = 0;
    while b < backgrounds.len()
        invariant
            b <= backgrounds@.len(),
            counts@.len() >= old(counts)@.len(),
            forall|k: int|
                0 <= k < old(counts)@.len() ==> (#[trigger] counts@[k]).background@ == old(
                    counts,
                )@[k].background@,
            forall|q: int|
                0 <= q < b ==> has_background(counts@, (#[trigger] backgrounds@[q])@),
        decreases backgrounds@.len() - b,
    {
        let bg = &backgrounds[b];
        let mut found = false;
        let mut i: usize = 0;
        let n = counts.len();
        let ghost at_start = counts@;
        while i < n && !found
            invariant
                i <= n,
                n == counts@.len(),
                counts@.len() == at_start.len(),
                forall|k: int|
                    0 <= k < counts@.len() ==> (#[trigger] counts@[k]).background@
                        == at_start[k].background@,
                found ==> has_background(counts@, backgrounds@[b as int]@),
            decreases n - i,
        {
            if crate::state::string_eq_str(&counts[i].background, bg.as_str()) {
                let c = counts[i].count;
                if c == u16::MAX {
                    return Err(ServerError::TooManyCategories);
                }
                let mut entry = BackgroundCount { background: bg.clone(), count: c + 1 };
                vstd::pervasive::VecAdditionalExecFns::set_and_swap(counts, i, &mut entry);
                found = true;
                proof {
                    assert((counts@[i as int]).background@ == backgrounds@[b as int]@);
                }
            }
            i = i + 1;
        }
        if !found {
            counts.push(BackgroundCount { background: bg.clone(), count: 1 });
            proof {
                assert((counts@[counts@.len() - 1]).background@ == backgrounds@[b as int]@);
            }
        }
        proof {
            assert forall|q: int| 0 <= q <= b implies has_background(
                counts@,
                (#[trigger] backgrounds@[q])@,
            ) by {
                if q < b {
                    let w = choose|w: int|
                        0 <= w < at_start.len() && (#[trigger] at_start[w]).background@
                            == backgrounds@[q]@;
                    assert((counts@[w]).background@ == backgrounds@[q]@);
                }
            }
        }
        b = b + 1;
    }
    Ok(())
}

/// The serial numbers of one batch: consecutive, starting at `first`, all
/// in mint run one of the full supply.
pub fn serial_numbers(first: u32, qty: u16) -> (r: Vec<SerialNumber>)
    requires
        first + qty <= u32::MAX,
    ensures
        r@.len() == qty,
        forall|k: int|
            0 <= k < qty ==> (#[trigger] r@[k]) == (SerialNumber {
                mint_run: 1,
                serial_number: (first + k) as u32,
                quantity_minted_this_run: Some(MAX_SUPPLY as u32),
            }),
{
    let mut r: Vec<SerialNumber> = Vec::new();
    let mut k: u16 = 0;
    while k < qty
        invariant
            k <= qty,
            first + qty <= u32::MAX,
            r@.len() == k,
            forall|j: int|
                0 <= j < k ==> (#[trigger] r@[j]) == (SerialNumber {
                    mint_run: 1,
                    serial_number: (first + j) as u32,
                    quantity_minted_this_run: Some(MAX_SUPPLY as u32),
                }),
        decreases qty - k,
    {
        r.push(
            SerialNumber {
                mint_run: 1,
                serial_number: first + (k as u32),
                quantity_minted_this_run: Some(MAX_SUPPLY as u32),
            },
        );
        k = k + 1;
    }
    r
}

} // verus!

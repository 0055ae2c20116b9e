//! The authorization allow-lists: admins, viewers and minters, held as
//! canonical address bytes and updated as sets.
use crate::canonical::gene_in;
use vstd::prelude::*;

verus! {

/// Which allow-list an update addresses.
pub enum AddrType {
    Admin,
    Viewer,
    Minter,
}

/// Every entry of `list` from position `base` on carries the bytes of some
/// entry of `adds`.
pub open spec fn appended_from(list: Seq<Vec<u8>>, base: int, adds: Seq<Vec<u8>>) -> bool {
    forall|k: int|
        base <= k < list.len() ==> exists|q: int|
            0 <= q < adds.len() && (#[trigger] list[k])@ == adds[q]@
}

/// Every entry avoids the removal list and is drawn from the original.
pub open spec fn kept_from(list: Seq<Vec<u8>>, rem: Seq<Vec<u8>>, orig: Seq<Vec<u8>>) -> bool {
    forall|k: int|
        0 <= k < list.len() ==> !gene_in(rem, (#[trigger] list[k])@) && (exists|q: int|
            0 <= q < orig.len() && list[k] == orig[q])
}

/// Adds addresses that are not yet on the list and reports whether the
/// list changed.
#[verifier::loop_isolation(false)]
pub fn add_addrs_to_auth(addresses: &mut Vec<Vec<u8>>, addrs_to_add: &Vec<Vec<u8>>) -> (save_it:
    bool)
    ensures
        final(addresses)@.len() >= old(addresses)@.len(),
        forall|k: int| 0 <= k < old(addresses)@.len() ==> final(addresses)@[k] == old(addresses)@[k],
        forall|q: int|
            0 <= q < addrs_to_add@.len() ==> gene_in(final(addresses)@, (
            #[trigger] addrs_to_add@[q])@),
        appended_from(final(addresses)@, old(addresses)@.len() as int, addrs_to_add@),
        save_it == (final(addresses)@.len() != old(addresses)@.len()),
{
    let mut save_it = false;
    let mut q: usize = 0;
    while q < addrs_to_add.len()
        invariant
            q <= addrs_to_add@.len(),
            addresses@.len() >= old(addresses)@.len(),
            forall|k: int|
                0 <= k < old(addresses)@.len() ==> addresses@[k] == old(addresses)@[k],
            forall|p: int|
                0 <= p < q ==> gene_in(addresses@, (#[trigger] addrs_to_add@[p])@),
            appended_from(addresses@, old(addresses)@.len() as int, addrs_to_add@),
            save_it == (addresses@.len() != old(addresses)@.len()),
        decreases addrs_to_add@.len() - q,
    {
        if !crate::canonical::contains_gene(addresses, &addrs_to_add[q]) {
            let a = crate::canonical::clone_bytes(&addrs_to_add[q]);
            let ghost pre_push = addresses@;
            addresses.push(a);
            save_it = true;
            proof {
                assert((addresses@[addresses@.len() - 1])@ == addrs_to_add@[q as int]@);
                assert forall|p: int| 0 <= p <= q implies gene_in(
                    addresses@,
                    (#[trigger] addrs_to_add@[p])@,
                ) by {
                    if p < q {
                        crate::canonical::lemma_gene_in_push(
                            pre_push,
                            addresses@[addresses@.len() - 1],
                            addrs_to_add@[p]@,
                        );
                        assert(addresses@ =~= pre_push.push(addresses@[addresses@.len() - 1]));
                    }
                }
                assert forall|k: int|
                    old(addresses)@.len() <= k < addresses@.len() implies exists|p: int|
                    0 <= p < addrs_to_add@.len() && (#[trigger] addresses@[k])@
                        == addrs_to_add@[p]@ by {
                    if k < addresses@.len() - 1 {
                        assert(appended_from(pre_push, old(addresses)@.len() as int, addrs_to_add@));
                        let p = choose|p: int|
                            0 <= p < addrs_to_add@.len() && (#[trigger] pre_push[k])@
                                == addrs_to_add@[p]@;
                        assert((addresses@[k])@ == addrs_to_add@[p]@);
                    } else {
                        assert((addresses@[k])@ == addrs_to_add@[q as int]@);
                    }
                }
                assert(appended_from(addresses@, old(addresses)@.len() as int, addrs_to_add@));
            }
        }
        q = q + 1;
    }
    save_it
}

/// Removes every listed address and reports whether the list changed; the
/// remaining addresses keep their order.
#[verifier::loop_isolation(false)]
pub fn remove_addrs_from_auth(addresses: &mut Vec<Vec<u8>>, addrs_to_remove: &Vec<Vec<u8>>) -> (
    save_it: bool)
    ensures
        final(addresses)@.len() <= old(addresses)@.len(),
        kept_from(final(addresses)@, addrs_to_remove@, old(addresses)@),
        save_it == (final(addresses)@.len() != old(addresses)@.len()),
{
    let n0 = addresses.len();
    let mut kept: Vec<Vec<u8>> = Vec::new();
    let ghost orig = addresses@;
    let ghost done = 0int;
    while addresses.len() > 0
        invariant
            n0 == orig.len(),
            addresses@ == orig.skip(done),
            0 <= done <= orig.len(),
            kept@.len() <= done,
            kept_from(kept@, addrs_to_remove@, orig),
        decreases addresses@.len(),
    {
        let a = addresses.remove(0);
        proof {
            assert(a == orig[done]);
            assert(addresses@ =~= orig.skip(done + 1));
        }
        if !crate::canonical::contains_gene(addrs_to_remove, &a) {
            let ghost pre = kept@;
            kept.push(a);
            proof {
                assert(kept@[kept@.len() - 1] == orig[done]);
                assert forall|k: int| 0 <= k < kept@.len() implies !gene_in(
                    addrs_to_remove@,
                    (#[trigger] kept@[k])@,
                ) && (exists|q: int| 0 <= q < orig.len() && kept@[k] == orig[q]) by {
                    if k < kept@.len() - 1 {
                        assert(kept_from(pre, addrs_to_remove@, orig));
                        assert(kept@[k] == pre[k]);
                        let q = choose|q: int| 0 <= q < orig.len() && pre[k] == orig[q];
                        assert(kept@[k] == orig[q]);
                    }
                }
            }
        }
        proof {
            done = done + 1;
        }
    }
    let changed = kept.len() != n0;
    *addresses = kept;
    changed
}

} // verus!

//! A keyed item registry: items are stored in insertion order, each is
//! found again by the byte key it derives, and no key enters twice.
use crate::error::ServerError;
use vstd::prelude::*;

verus! {

/// Marks types that can be stored in the registry by deriving a byte key.
pub trait AsKey: Sized {
    /// The key in specification terms.
    spec fn spec_key(&self) -> Seq<u8>;

    /// Derives the storage key of this item.
    fn as_key(&self) -> (r: &[u8])
        ensures
            r@ == self.spec_key(),
    ;
}

/// An item registry: insertion-ordered items with pairwise distinct keys.
pub struct Registry<T> {
    /// item count
    pub count: u16,
    /// the items, in insertion order
    pub items: Vec<T>,
}

impl<T: AsKey + Clone> Registry<T> {
    /// No two items carry the same key, and the count matches.
    pub open spec fn wf(self) -> bool {
        &&& self.count as int == self.items@.len()
        &&& forall|i: int, j: int|
            0 <= i < j < self.items@.len() ==> (#[trigger] self.items@[i]).spec_key() != (
            #[trigger] self.items@[j]).spec_key()
    }

    /// Creates an empty registry.
    pub fn new() -> (r: Registry<T>)
        ensures
            r.wf(),
            r.items@.len() == 0,
    {
        Registry { count: 0, items: Vec::new() }
    }

    /// The index of the first item carrying this key, if any.
    pub open spec fn spec_idx(items: Seq<T>, key: Seq<u8>) -> Option<int>
        decreases items.len(),
    {
        if items.len() == 0 {
            None
        } else if items[0].spec_key() == key {
            Some(0int)
        } else {
            match Self::spec_idx(items.skip(1), key) {
                Some(i) => Some(i + 1),
                None => None,
            }
        }
    }

    /// Finds the index of the item with this key.
    #[verifier::loop_isolation(false)]
    fn scan(&self, item_key: &[u8]) -> (r: Option<usize>)
        ensures
            match r {
                Some(i) => Self::spec_idx(self.items@, item_key@) == Some(i as int) && i
                    < self.items@.len(),
                None => Self::spec_idx(self.items@, item_key@) is None,
            },
    {
        let mut i: usize = 0;
        proof {
            assert(self.items@.skip(0) =~= self.items@);
        }
        while i < self.items.len()
            invariant
                i <= self.items@.len(),
                Self::spec_idx(self.items@, item_key@) == match Self::spec_idx(
                    self.items@.skip(i as int),
                    item_key@,
                ) {
                    Some(k) => Some(k + i),
                    None => None,
                },
            decreases self.items@.len() - i,
        {
            proof {
                assert(self.items@.skip(i as int)[0] == self.items@[i as int]);
                assert(self.items@.skip(i as int).skip(1) =~= self.items@.skip(i as int + 1));
            }
            if crate::viewing_key::slices_equal(self.items[i].as_key(), item_key) {
                return Some(i);
            }
            i = i + 1;
        }
        proof {
            assert(self.items@.skip(i as int).len() == 0);
        }
        None
    }

    /// Adds an item and returns true exactly when its key was not yet in
    /// the registry; a duplicate key changes nothing.  Errs — changing
    /// nothing — exactly when the key is new but the index space is
    /// exhausted.
    #[verifier::loop_isolation(false)]
    pub fn add(&mut self, item: T) -> (r: Result<bool, ServerError>)
        requires
            old(self).wf(),
        ensures
            final(self).wf(),
            match r {
                Ok(added) => if added {
                    &&& Self::spec_idx(old(self).items@, item.spec_key()) is None
                    &&& final(self).items@.len() == old(self).items@.len() + 1
                    &&& forall|i: int|
                        0 <= i < old(self).items@.len() ==> final(self).items@[i] == old(
                            self,
                        ).items@[i]
                    &&& final(self).items@.last() == item
                    &&& old(self).count < u16::MAX
                } else {
                    Self::spec_idx(old(self).items@, item.spec_key()) is Some && *final(self)
                        == *old(self)
                },
                Err(_) => *final(self) == *old(self) && old(self).count == u16::MAX
                    && Self::spec_idx(old(self).items@, item.spec_key()) is None,
            },
    {
        let ghost k = item.spec_key();
        let found = self.scan(item.as_key()).is_some();
        match found {
            true => Ok(false),
            false => {
                if self.count == u16::MAX {
                    return Err(ServerError::TooManyCategories);
                }
                self.items.push(item);
                self.count = self.count + 1;
                proof {
                    lemma_spec_idx_absent::<T>(old(self).items@, k);
                    assert forall|i: int, j: int|
                        0 <= i < j < self.items@.len() implies (
                    #[trigger] self.items@[i]).spec_key() != (
                    #[trigger] self.items@[j]).spec_key() by {
                        if j == self.items@.len() - 1 {
                            assert(old(self).items@[i].spec_key() != k);
                        }
                    }
                }
                Ok(true)
            },
        }
    }

    /// Returns the index of the item with this key.  Errs exactly when no
    /// item carries the key.
    pub fn get_idx(&self, item_key: &[u8]) -> (r: Result<u16, ServerError>)
        requires
            self.wf(),
        ensures
            match r {
                Ok(i) => Self::spec_idx(self.items@, item_key@) == Some(i as int),
                Err(_) => Self::spec_idx(self.items@, item_key@) is None,
            },
    {
        match self.scan(item_key) {
            Some(i) => Ok(i as u16),
            None => Err(ServerError::NamedVariantNotFound { name: String::new() }),
        }
    }

    /// Returns the item at this index.  Errs exactly when the index is
    /// past the registry.
    pub fn get_at(&self, idx: u16) -> (r: Result<&T, ServerError>)
        ensures
            match r {
                Ok(item) => (idx as int) < self.items@.len() && *item == self.items@[idx as int],
                Err(_) => (idx as int) >= self.items@.len(),
            },
    {
        if (idx as usize) < self.items.len() {
            Ok(&self.items[idx as usize])
        } else {
            Err(ServerError::CategoryIndexOutOfBounds { count: 0 })
        }
    }

    /// Displays the count and one page of items; a page past the end is
    /// empty.
    #[verifier::loop_isolation(false)]
    pub fn display(&self, page: u16, page_size: u16) -> (r: (u16, Vec<T>))
        requires
            self.wf(),
        ensures
            r.0 == self.count,
            r.1@.len() == (if page * page_size >= self.items@.len() {
                0
            } else if (page + 1) * page_size >= self.items@.len() {
                self.items@.len() - page * page_size
            } else {
                page_size as int
            }),
            forall|k: int|
                0 <= k < r.1@.len() ==> vstd::pervasive::cloned::<T>(
                    self.items@[page * page_size + k],
                    #[trigger] r.1@[k],
                ),
    {
        proof {
            assert((page as int) * (page_size as int) <= 65535 * 65535) by (nonlinear_arith)
                requires
                    page as int <= 65535,
                    page_size as int <= 65535,
            ;
            assert((page as int + 1) * (page_size as int) == (page as int) * (page_size as int) + (
            page_size as int)) by (nonlinear_arith);
        }
        let start: usize = (page as usize) * (page_size as usize);
        let n = self.items.len();
        if start >= n {
            let empty: Vec<T> = Vec::new();
            return (self.count, empty);
        }
        let end: usize = if (page_size as usize) > n - start {
            n
        } else {
            start + (page_size as usize)
        };
        let mut list: Vec<T> = Vec::new();
        let mut i: usize = start;
        while i < end
            invariant
                start <= i <= end <= n,
                n == self.items@.len(),
                end - start <= page_size,
                (end < start + page_size) ==> end == n,
                list@.len() == i - start,
                forall|k: int|
                    0 <= k < list@.len() ==> vstd::pervasive::cloned::<T>(
                        self.items@[start + k],
                        #[trigger] list@[k],
                    ),
            decreases end - i,
        {
            let item = self.items[i].clone();
            list.push(item);
            i = i + 1;
        }
        (self.count, list)
    }
}

/// A key found absent by the scan really is absent from every position.
pub proof fn lemma_spec_idx_absent<T: AsKey + Clone>(items: Seq<T>, key: Seq<u8>)
    requires
        Registry::<T>::spec_idx(items, key) is None,
    ensures
        forall|i: int| 0 <= i < items.len() ==> (#[trigger] items[i]).spec_key() != key,
    decreases items.len(),
{
    if items.len() > 0 {
        lemma_spec_idx_absent::<T>(items.skip(1), key);
        assert forall|i: int| 0 <= i < items.len() implies (#[trigger] items[i]).spec_key()
            != key by {
            if i > 0 {
                assert(items.skip(1)[i - 1] == items[i]);
            }
        }
    }
}

/// Code hash and address of a companion contract.
#[derive(Clone, PartialEq, Debug)]
pub struct ContractInfo {
    /// contract's code hash string
    pub code_hash: String,
    /// contract's address
    pub address: String,
}

/// The stored form of `ContractInfo`: the address in canonical bytes.
#[derive(Clone, PartialEq, Debug)]
pub struct StoreContractInfo {
    /// contract's code hash string
    pub code_hash: String,
    /// contract's address
    pub address: Vec<u8>,
    /// creator's address if known
    pub creator: Option<Vec<u8>>,
}

impl AsKey for StoreContractInfo {
    open spec fn spec_key(&self) -> Seq<u8> {
        self.address@
    }

    fn as_key(&self) -> (r: &[u8]) {
        self.address.as_slice()
    }
}

} // verus!

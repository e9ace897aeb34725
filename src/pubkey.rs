//! Account identities.
use vstd::prelude::*;

verus! {

/// Lexicographic order on byte strings of one length.
pub open spec fn bytes_lt(a: Seq<u8>, b: Seq<u8>) -> bool {
    exists|i: int|
        0 <= i < a.len() && i < b.len() && a[i] < b[i] && a.subrange(0, i) == b.subrange(0, i)
}

/// The byte order is transitive.
pub proof fn lemma_bytes_lt_transitive(a: Seq<u8>, b: Seq<u8>, c: Seq<u8>)
    requires
        bytes_lt(a, b),
        bytes_lt(b, c),
    ensures
        bytes_lt(a, c),
{
    let i = choose|i: int|
        0 <= i < a.len() && i < b.len() && a[i] < b[i] && a.subrange(0, i) == b.subrange(0, i);
    let j = choose|j: int|
        0 <= j < b.len() && j < c.len() && b[j] < c[j] && b.subrange(0, j) == c.subrange(0, j);
    let k = if i <= j {
        i
    } else {
        j
    };
    assert(a.subrange(0, k) =~= c.subrange(0, k)) by {
        assert forall|t: int| 0 <= t < k implies a.subrange(0, k)[t] == c.subrange(0, k)[t] by {
            assert(a.subrange(0, i)[t] == b.subrange(0, i)[t]);
            assert(b.subrange(0, j)[t] == c.subrange(0, j)[t]);
        }
    }
    if i < j {
        assert(b.subrange(0, j)[i] == c.subrange(0, j)[i]);
    } else if j < i {
        assert(a.subrange(0, i)[j] == b.subrange(0, i)[j]);
    }
    assert(0 <= k < a.len() && k < c.len() && a[k] < c[k] && a.subrange(0, k) == c.subrange(0, k));
}

/// The byte order is irreflexive.
pub proof fn lemma_bytes_lt_irreflexive(a: Seq<u8>)
    ensures
        !bytes_lt(a, a),
{
}

/// A 32-byte account address.
#[derive(Clone, Copy, Debug, Default, PartialEq, Eq, PartialOrd, Ord, Hash)]
pub struct Pubkey(pub [u8; 32]);

impl View for Pubkey {
    type V = Seq<u8>;

    open spec fn view(&self) -> Seq<u8> {
        self.0@
    }
}

impl Pubkey {
    /// The address with these bytes.
    pub fn new_from_array(bytes: [u8; 32]) -> (r: Pubkey)
        ensures
            r@ == bytes@,
    {
        Pubkey(bytes)
    }

    /// Whether the two addresses are the same.
    pub fn same(&self, other: &Pubkey) -> (r: bool)
        ensures
            r == (self@ == other@),
    {
        let mut i: usize = 0;
        while i < 32
            invariant
                i <= 32,
                self@.len() == 32,
                other@.len() == 32,
                forall|j: int| 0 <= j < i ==> self@[j] == other@[j],
            decreases 32 - i,
        {
            if self.0[i] != other.0[i] {
                return false;
            }
            i = i + 1;
        }
        proof {
            assert(self@ =~= other@);
        }
        true
    }

    /// Whether `self` comes before `other` byte by byte.
    pub fn lt(&self, other: &Pubkey) -> (r: bool)
        ensures
            r == bytes_lt(self@, other@),
    {
        let mut i: usize = 0;
        while i < 32
            invariant
                i <= 32,
                self@.len() == 32,
                other@.len() == 32,
                self@.subrange(0, i as int) == other@.subrange(0, i as int),
            decreases 32 - i,
        {
            if self.0[i] != other.0[i] {
                let r = self.0[i] < other.0[i];
                proof {
                    if !r {
                        assert forall|j: int|
                            0 <= j < 32 && self@.subrange(0, j) == other@.subrange(0, j) implies !(
                            self@[j] < other@[j]) by {
                            if j < i {
                                assert(self@.subrange(0, i as int)[j] == self@[j]);
                                assert(other@.subrange(0, i as int)[j] == other@[j]);
                            } else if j > i {
                                assert(self@.subrange(0, j)[i as int] == self@[i as int]);
                                assert(other@.subrange(0, j)[i as int] == other@[i as int]);
                            }
                        }
                    }
                }
                return r;
            }
            proof {
                assert(self@.subrange(0, i + 1) =~= self@.subrange(0, i as int).push(self@[i as int]));
                assert(other@.subrange(0, i + 1) =~= other@.subrange(0, i as int).push(
                    other@[i as int],
                ));
            }
            i = i + 1;
        }
        proof {
            assert forall|j: int|
                0 <= j < 32 && self@.subrange(0, j) == other@.subrange(0, j) implies !(self@[j]
                < other@[j]) by {
                assert(self@.subrange(0, 32)[j] == self@[j]);
                assert(other@.subrange(0, 32)[j] == other@[j]);
            }
        }
        false
    }
}

} // verus!

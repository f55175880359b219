use std::collections::HashMap;

use vstd::prelude::*;
use vstd::std_specs::hash::group_hash_axioms;
use vstd::string::StringSliceAdditionalSpecFns;

use crate::common::{info_result_view, ErrorKind, InfoView, PhoneLookup, PhoneNoInfo, MAX_NUMBER_LEN};

verus! {

broadcast use group_hash_axioms;

/// The cache key of a byte string: its bytes read as a base-256 number
/// behind a leading 1, so that distinct strings get distinct keys.
pub open spec fn cache_key(no: Seq<u8>) -> int
    decreases no.len(),
{
    if no.len() == 0 {
        1
    } else {
        cache_key(no.drop_last()) * 256 + no.last()
    }
}

pub open spec fn pow256(n: nat) -> int
    decreases n,
{
    if n == 0 {
        1
    } else {
        256 * pow256((n - 1) as nat)
    }
}

proof fn lemma_cache_key_bounds(no: Seq<u8>)
    ensures
        1 <= cache_key(no) < pow256(no.len() + 1),
    decreases no.len(),
{
    reveal_with_fuel(pow256, 2);
    if no.len() > 0 {
        lemma_cache_key_bounds(no.drop_last());
        let k = cache_key(no.drop_last());
        let p = pow256(no.len() as nat);
        let x = no.last() as int;
        assert(cache_key(no) == k * 256 + x);
        assert(pow256((no.len() + 1) as nat) == 256 * p);
        assert(k * 256 + x < 256 * p) by (nonlinear_arith)
            requires
                k < p,
                0 <= x < 256,
        ;
    }
}

/// Distinct byte strings have distinct cache keys.
proof fn lemma_cache_key_injective(a: Seq<u8>, b: Seq<u8>)
    requires
        cache_key(a) == cache_key(b),
    ensures
        a == b,
    decreases a.len(),
{
    if a.len() == 0 && b.len() == 0 {
        assert(a =~= b);
    } else if a.len() == 0 || b.len() == 0 {
        let c = if a.len() == 0 { b } else { a };
        lemma_cache_key_bounds(c.drop_last());
        assert(cache_key(c) >= 256);
    } else {
        let ka = cache_key(a.drop_last());
        let kb = cache_key(b.drop_last());
        let xa = a.last() as int;
        let xb = b.last() as int;
        assert(ka == kb && xa == xb) by (nonlinear_arith)
            requires
                ka * 256 + xa == kb * 256 + xb,
                0 <= xa < 256,
                0 <= xb < 256,
        ;
        lemma_cache_key_injective(a.drop_last(), b.drop_last());
        assert(a =~= a.drop_last().push(a.last()));
        assert(b =~= b.drop_last().push(b.last()));
    }
}

/// Computes the cache key of a number of at most 11 bytes.
fn key_of(no: &str) -> (r: u128)
    requires
        no.spec_bytes().len() <= MAX_NUMBER_LEN,
    ensures
        r == cache_key(no.spec_bytes()),
{
    let b = no.as_bytes();
    let mut k: u128 = 1;
    let mut i: usize = 0;
    while i < b.len()
        invariant
            b@ == no.spec_bytes(),
            b@.len() <= MAX_NUMBER_LEN,
            i <= b@.len(),
            k == cache_key(b@.subrange(0, i as int)),
        decreases b@.len() - i,
    {
        proof {
            assert(b@.subrange(0, i + 1).drop_last() =~= b@.subrange(0, i as int));
            lemma_cache_key_bounds(b@.subrange(0, i as int));
            assert(pow256(12) == 0x1_0000_0000_0000_0000_0000_0000) by {
                reveal_with_fuel(pow256, 13);
            }
            assert(pow256((i + 1) as nat) <= pow256(12)) by {
                lemma_pow256_mono((i + 1) as nat, 12);
            }
        }
        k = k * 256 + b[i] as u128;
        i = i + 1;
    }
    proof {
        assert(b@.subrange(0, b@.len() as int) =~= b@);
    }
    k
}

proof fn lemma_pow256_pos(n: nat)
    ensures
        1 <= pow256(n),
    decreases n,
{
    if n > 0 {
        lemma_pow256_pos((n - 1) as nat);
    }
}

proof fn lemma_pow256_mono(m: nat, n: nat)
    requires
        m <= n,
    ensures
        1 <= pow256(m) <= pow256(n),
    decreases n,
{
    if m < n {
        lemma_pow256_mono(m, (n - 1) as nat);
        lemma_pow256_pos((n - 1) as nat);
    } else {
        lemma_pow256_pos(n);
    }
}

/// A bounded cache of results in front of any lookup strategy. Only
/// successful results are kept, keyed by the exact number given; once
/// `max_size` numbers are held, nothing more is added.
pub struct CachedLookup<L: PhoneLookup> {
    inner: L,
    entries: HashMap<u128, PhoneNoInfo>,
    max_size: usize,
}

impl<L: PhoneLookup> CachedLookup<L> {
    /// Within bounds, and every held result is the strategy's answer for
    /// the number it is kept under.
    pub closed spec fn wf(&self) -> bool {
        &&& self.entries@.len() <= self.max_size
        &&& forall|b: Seq<u8>|
            b.len() <= MAX_NUMBER_LEN && #[trigger] self.entries@.contains_key(
                cache_key(b) as u128,
            ) ==> self.inner.lookup_spec(b) == Ok::<_, ErrorKind>(
                self.entries@[cache_key(b) as u128]@,
            )
    }

    /// The strategy behind the cache.
    pub closed spec fn strategy(&self) -> L {
        self.inner
    }

    /// How many results are held.
    pub closed spec fn size(&self) -> nat {
        self.entries@.len()
    }

    /// How many results may be held.
    pub closed spec fn capacity(&self) -> nat {
        self.max_size as nat
    }

    /// Whether a result is held for the number with bytes `no`.
    pub closed spec fn holds(&self, no: Seq<u8>) -> bool {
        no.len() <= MAX_NUMBER_LEN && self.entries@.contains_key(cache_key(no) as u128)
    }

    /// The result held for the number with bytes `no`.
    pub closed spec fn held(&self, no: Seq<u8>) -> InfoView {
        self.entries@[cache_key(no) as u128]@
    }

    /// Whatever the cache holds for a number is what the strategy answers
    /// for it, so going through the cache never changes an answer.
    pub proof fn lemma_cache_transparent(&self, no: Seq<u8>)
        requires
            self.wf(),
            self.holds(no),
        ensures
            self.strategy().lookup_spec(no) == Ok::<InfoView, ErrorKind>(self.held(no)),
    {
    }

    /// An empty cache of at most `max_size` results in front of `inner`.
    pub fn new(inner: L, max_size: usize) -> (r: CachedLookup<L>)
        ensures
            r.wf(),
            r.strategy() == inner,
            r.size() == 0,
            r.capacity() == max_size,
    {
        CachedLookup { inner, entries: HashMap::new(), max_size }
    }

    /// Looks up one number: a held result if there is one, else the
    /// strategy's answer, which is kept when it is a success and there is
    /// room. The answer is always the strategy's own.
    pub fn find(&mut self, no: &str) -> (r: Result<PhoneNoInfo, ErrorKind>)
        requires
            old(self).wf(),
        ensures
            final(self).wf(),
            info_result_view(r) == old(self).strategy().lookup_spec(no.spec_bytes()),
            final(self).strategy() == old(self).strategy(),
            final(self).capacity() == old(self).capacity(),
            old(self).size() <= final(self).size() <= old(self).size() + 1,
            r is Err ==> final(self).size() == old(self).size(),
            old(self).holds(no.spec_bytes()) ==> final(self).size() == old(self).size(),
            r is Ok && no.spec_bytes().len() <= MAX_NUMBER_LEN && old(self).size() < old(
                self,
            ).capacity() ==> final(self).holds(no.spec_bytes()),
    {
        let n = no.as_bytes().len();
        if n > MAX_NUMBER_LEN {
            return self.inner.find(no);
        }
        assert(no.spec_bytes().len() <= MAX_NUMBER_LEN);
        let key = key_of(no);
        let ghost bytes = no.spec_bytes();
        proof {
            lemma_cache_key_bounds(bytes);
            lemma_pow256_mono(bytes.len() + 1, 12);
            assert(pow256(12) == 0x1_0000_0000_0000_0000_0000_0000) by {
                reveal_with_fuel(pow256, 13);
            }
        }
        match self.entries.get(&key) {
            Some(info) => {
                assert(self.entries@.contains_key(cache_key(bytes) as u128));
                return Ok(info.duplicate());
            },
            None => {},
        }
        let r = self.inner.find(no);
        match r {
            Ok(info) => {
                if self.entries.len() < self.max_size {
                    let kept = info.duplicate();
                    proof {
                        assert forall|b: Seq<u8>|
                            b.len() <= MAX_NUMBER_LEN && cache_key(b) as u128 == key implies b
                            == bytes by {
                            lemma_cache_key_bounds(b);
                            lemma_pow256_mono(b.len() + 1, 12);
                            lemma_cache_key_injective(b, bytes);
                        }
                    }
                    self.entries.insert(key, kept);
                }
                Ok(info)
            },
            Err(e) => Err(e),
        }
    }

    /// Looks up each number in order, through the cache.
    pub fn find_batch(&mut self, phones: &[&str]) -> (r: Vec<Result<PhoneNoInfo, ErrorKind>>)
        requires
            old(self).wf(),
        ensures
            final(self).wf(),
            r@.len() == phones@.len(),
            forall|i: int|
                0 <= i < phones@.len() ==> info_result_view(#[trigger] r@[i]) == old(
                    self,
                ).strategy().lookup_spec(phones@[i].spec_bytes()),
            final(self).strategy() == old(self).strategy(),
    {
        let mut out: Vec<Result<PhoneNoInfo, ErrorKind>> = Vec::new();
        let mut i: usize = 0;
        while i < phones.len()
            invariant
                i <= phones@.len(),
                out@.len() == i,
                self.wf(),
                self.strategy() == old(self).strategy(),
                forall|k: int|
                    0 <= k < i ==> info_result_view(#[trigger] out@[k]) == old(
                        self,
                    ).strategy().lookup_spec(phones@[k].spec_bytes()),
            decreases phones@.len() - i,
        {
            let r = self.find(phones[i]);
            out.push(r);
            i = i + 1;
        }
        out
    }

    /// How many results are held.
    pub fn len(&self) -> (r: usize)
        ensures
            r == self.size(),
    {
        self.entries.len()
    }

    /// The strategy behind the cache.
    pub fn strategy_ref(&self) -> (r: &L)
        ensures
            *r == self.strategy(),
    {
        &self.inner
    }
}

} // verus!

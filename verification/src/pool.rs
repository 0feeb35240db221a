//! The endpoint pool: an ordered, flattened assignment list built from
//! all configured endpoints, where each endpoint appears consecutively as
//! many times as its replica weight, used for deterministic positional
//! round-robin job placement.

use vstd::prelude::*;

use crate::ollama::{EndpointModel, OllamaClient};
use crate::ConfigError;

verus! {

/// The models of a sequence of clients.
pub open spec fn endpoint_models(cs: Seq<OllamaClient>) -> Seq<EndpointModel> {
    cs.map_values(|c: OllamaClient| c@)
}

/// The flattened assignment list of the given endpoints: each endpoint
/// repeated consecutively as many times as its replica weight.
pub open spec fn flattened(eps: Seq<EndpointModel>) -> Seq<EndpointModel>
    decreases eps.len(),
{
    if eps.len() == 0 {
        Seq::empty()
    } else {
        Seq::new(eps.first().count as nat, |i: int| eps.first()) + flattened(eps.drop_first())
    }
}

proof fn lemma_flattened_push(eps: Seq<EndpointModel>, e: EndpointModel)
    ensures
        flattened(eps.push(e)) == flattened(eps) + Seq::new(e.count as nat, |i: int| e),
    decreases eps.len(),
{
    if eps.len() == 0 {
        assert(eps.push(e).first() == e);
        assert(eps.push(e).drop_first() =~= Seq::<EndpointModel>::empty());
        assert(Seq::new(e.count as nat, |i: int| e) + flattened(Seq::empty()) =~= Seq::new(
            e.count as nat,
            |i: int| e,
        ));
        assert(flattened(eps) + Seq::new(e.count as nat, |i: int| e) =~= Seq::new(
            e.count as nat,
            |i: int| e,
        ));
    } else {
        assert(eps.push(e).first() == eps.first());
        assert(eps.push(e).drop_first() =~= eps.drop_first().push(e));
        lemma_flattened_push(eps.drop_first(), e);
        assert(Seq::new(eps.first().count as nat, |i: int| eps.first()) + (flattened(
            eps.drop_first(),
        ) + Seq::new(e.count as nat, |i: int| e)) =~= (Seq::new(
            eps.first().count as nat,
            |i: int| eps.first(),
        ) + flattened(eps.drop_first())) + Seq::new(e.count as nat, |i: int| e));
    }
}

/// The flattened, positional round-robin assignment list over all
/// configured endpoints. Non-empty by construction; immutable once built.
pub struct EndpointPool {
    slots: Vec<OllamaClient>,
}

impl View for EndpointPool {
    type V = Seq<EndpointModel>;

    closed spec fn view(&self) -> Seq<EndpointModel> {
        self.slots@.map_values(|c: OllamaClient| c@)
    }
}

impl EndpointPool {
    #[verifier::type_invariant]
    closed spec fn inv(self) -> bool {
        self.slots@.len() > 0
    }

    /// Builds the assignment list from the configured endpoints, each
    /// repeated as many times as its replica weight, in order; an empty
    /// result is a configuration fault and no pool is built.
    pub fn build(endpoints: &Vec<OllamaClient>) -> (r: Result<EndpointPool, ConfigError>)
        ensures
            r is Ok <==> flattened(endpoint_models(endpoints@)).len() > 0,
            r matches Ok(p) ==> p@ == flattened(endpoint_models(endpoints@)),
            r is Err ==> r->Err_0 == ConfigError::EmptyPool,
    {
        let mut slots: Vec<OllamaClient> = Vec::new();
        let n = endpoints.len();
        let mut i: usize = 0;
        while i < n
            invariant
                i <= n,
                n == endpoints@.len(),
                endpoint_models(slots@) == flattened(endpoint_models(endpoints@).take(i as int)),
            decreases n - i,
        {
            let ghost done = endpoint_models(endpoints@).take(i as int);
            let ghost e = endpoints@[i as int]@;
            proof {
                lemma_flattened_push(done, e);
                assert(done.push(e) =~= endpoint_models(endpoints@).take(i as int + 1));
            }
            let count = endpoints[i].count();
            let mut k: usize = 0;
            while k < count
                invariant
                    k <= count,
                    i < n,
                    n == endpoints@.len(),
                    count == endpoints@[i as int]@.count,
                    e == endpoints@[i as int]@,
                    endpoint_models(slots@) == flattened(done) + Seq::new(k as nat, |j: int| e),
                decreases count - k,
            {
                let c = endpoints[i].duplicate();
                proof {
                    assert(endpoint_models(slots@.push(c)) =~= endpoint_models(slots@).push(c@));
                    assert((flattened(done) + Seq::new(k as nat, |j: int| e)).push(e) =~= flattened(
                        done,
                    ) + Seq::new(k as nat + 1, |j: int| e));
                }
                slots.push(c);
                k = k + 1;
            }
            proof {
                assert(Seq::new(count as nat, |j: int| e) =~= Seq::new(e.count as nat, |j: int| e));
            }
            i = i + 1;
        }
        proof {
            assert(endpoint_models(endpoints@).take(n as int) =~= endpoint_models(endpoints@));
        }
        if slots.len() == 0 {
            Result::Err(ConfigError::EmptyPool)
        } else {
            Result::Ok(EndpointPool { slots })
        }
    }

    /// The number of assignment slots; positive for every pool.
    pub fn len(&self) -> (n: usize)
        ensures
            n == self@.len(),
            n > 0,
    {
        proof {
            use_type_invariant(self);
        }
        self.slots.len()
    }

    /// Deterministic positional assignment: the endpoint of slot
    /// `index mod len`, a pure function of the index and the pool's
    /// contents. Equal indices always receive equal endpoints.
    pub fn assign(&self, index: usize) -> (r: &OllamaClient)
        ensures
            r@ == self@[index as int % self@.len() as int],
    {
        proof {
            use_type_invariant(self);
        }
        let n = self.slots.len();
        let k = index % n;
        &self.slots[k]
    }

    /// The endpoint for a 1-based page number: slot `page_no - 1 mod len`.
    pub fn assign_page(&self, page_no: usize) -> (r: &OllamaClient)
        requires
            page_no >= 1,
        ensures
            r@ == self@[(page_no - 1) as int % self@.len() as int],
    {
        self.assign(page_no - 1)
    }
}

} // verus!

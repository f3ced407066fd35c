//! Stacking layers: a later layer rides on the trace of the one before it.
//!
//! The traces of the layers of a chain are added index by index. They need
//! not be equally long: the composed trace is as long as the longest of them,
//! and a shorter one is walked round and round. This module plans that: it
//! says how long each trace is, how long the composed one is, and which
//! sample of a layer goes into a given sample of the result.

use crate::error::CurveError;
use crate::params::{CurveParams, ParamsView};
use vstd::arithmetic::div_mod::{lemma_mod_add_multiples_vanish, lemma_small_mod};
use vstd::prelude::*;

verus! {

/// The parameters of the layers of a chain, as plain data.
pub open spec fn views(chain: Seq<CurveParams>) -> Seq<ParamsView> {
    Seq::new(chain.len(), |k: int| chain[k]@)
}

/// Whether a chain can be composed: each layer is valid and has a positive
/// ratio, and all layers have as many samples in a revolution as the first.
pub open spec fn composable(chain: Seq<ParamsView>) -> bool {
    forall|k: int|
        0 <= k < chain.len() ==> {
            &&& (#[trigger] chain[k]).valid()
            &&& chain[k].ratio_positive()
            &&& chain[k].samples_per_revolution == chain[0].samples_per_revolution
        }
}

/// The length of the trace of each layer of a chain.
pub open spec fn layer_lens(chain: Seq<ParamsView>) -> Seq<nat> {
    Seq::new(chain.len(), |k: int| chain[k].trace_len(chain[k].rotations()) as nat)
}

/// The largest of a sequence of lengths; zero where there is none.
pub open spec fn longest(lens: Seq<nat>) -> nat
    decreases lens.len(),
{
    if lens.len() == 0 {
        0
    } else if longest(lens.drop_last()) >= lens.last() {
        longest(lens.drop_last())
    } else {
        lens.last()
    }
}

/// The longest length is a maximum: no length exceeds it, and where there
/// are lengths one of them attains it.
pub proof fn lemma_longest_is_max(lens: Seq<nat>)
    ensures
        forall|k: int| 0 <= k < lens.len() ==> lens[k] <= longest(lens),
        lens.len() > 0 ==> exists|k: int| 0 <= k < lens.len() && lens[k] == longest(lens),
        lens.len() == 0 ==> longest(lens) == 0,
    decreases lens.len(),
{
    if lens.len() > 0 {
        let front = lens.drop_last();
        lemma_longest_is_max(front);
        assert forall|k: int| 0 <= k < lens.len() implies lens[k] <= longest(lens) by {
            if k < front.len() {
                assert(front[k] == lens[k]);
            }
        }
        if longest(front) >= lens.last() && front.len() > 0 {
            let k = choose|k: int| 0 <= k < front.len() && front[k] == longest(front);
            assert(lens[k] == longest(lens));
        } else {
            assert(lens[lens.len() - 1] == longest(lens));
        }
    }
}

/// Walking a trace round and round repeats: one full length further on, the
/// same sample of the layer is used again.
pub proof fn lemma_source_repeats(i: nat, len: nat)
    requires
        len > 0,
    ensures
        (i + len) % len == i % len,
        i < len ==> i % len == i,
{
    lemma_mod_add_multiples_vanish(i as int, len as int);
    if i < len {
        lemma_small_mod(i, len);
    }
}

/// How the traces of a chain are lined up: the length of each, and the length
/// of what they compose to.
#[derive(Debug)]
pub struct ChainPlan {
    lens: Vec<u64>,
    total: u64,
}

impl View for ChainPlan {
    type V = Seq<nat>;

    /// The length of the trace of each layer.
    closed spec fn view(&self) -> Seq<nat> {
        Seq::new(self.lens@.len(), |k: int| self.lens@[k] as nat)
    }
}

impl ChainPlan {
    #[verifier::type_invariant]
    closed spec fn well_formed(self) -> bool {
        &&& self.total == longest(self@)
        &&& forall|k: int| 0 <= k < self.lens@.len() ==> self.lens@[k] >= 1
    }

    /// Plans the composition of a chain, or refuses a chain that cannot be
    /// composed.
    pub fn new(chain: &Vec<CurveParams>) -> (made: Result<ChainPlan, CurveError>)
        ensures
            match made {
                Ok(plan) => composable(views(chain@)) && plan@ == layer_lens(views(chain@)),
                Err(error) => error == CurveError::InvalidParameter && !composable(
                    views(chain@),
                ),
            },
    {
        let ghost layers = views(chain@);
        let mut lens: Vec<u64> = Vec::new();
        let mut total: u64 = 0;
        let mut k: usize = 0;
        while k < chain.len()
            invariant
                k <= chain.len(),
                layers == views(chain@),
                lens@.len() == k,
                forall|j: int|
                    0 <= j < k ==> {
                        &&& (#[trigger] layers[j]).valid()
                        &&& layers[j].ratio_positive()
                        &&& layers[j].samples_per_revolution == layers[0].samples_per_revolution
                    },
                forall|j: int|
                    0 <= j < k ==> (#[trigger] lens@[j]) == layers[j].trace_len(
                        layers[j].rotations(),
                    ) && lens@[j] >= 1,
                total == longest(Seq::new(k as nat, |j: int| lens@[j] as nat)),
            decreases chain.len() - k,
        {
            let layer = &chain[k];
            assert(layers[k as int] == layer@);
            if layer.samples_per_revolution() != chain[0].samples_per_revolution() {
                assert(layers[0] == chain@[0]@);
                return Err(CurveError::InvalidParameter);
            }
            match layer.resolved_trace_len() {
                Ok(len) => {
                    let ghost before = Seq::new(k as nat, |j: int| lens@[j] as nat);
                    lens.push(len);
                    if len > total {
                        total = len;
                    }
                    proof {
                        let after = Seq::new((k + 1) as nat, |j: int| lens@[j] as nat);
                        assert(after.drop_last() =~= before);
                        assert(after.last() == len);
                    }
                },
                Err(error) => {
                    return Err(error);
                },
            }
            k = k + 1;
        }
        let plan = ChainPlan { lens, total };
        assert(plan@ =~= layer_lens(layers));
        assert(plan@ =~= Seq::new(k as nat, |j: int| plan.lens@[j] as nat));
        Ok(plan)
    }

    /// The number of layers.
    pub fn layers(&self) -> (n: usize)
        ensures
            n == self@.len(),
    {
        self.lens.len()
    }

    /// The length of the composed trace: that of the longest layer.
    pub fn len(&self) -> (total: u64)
        ensures
            total == longest(self@),
    {
        proof {
            use_type_invariant(self);
        }
        self.total
    }

    /// The length of the trace of layer `k`.
    pub fn layer_len(&self, k: usize) -> (len: u64)
        requires
            k < self@.len(),
        ensures
            len == self@[k as int],
            1 <= len <= longest(self@),
    {
        proof {
            use_type_invariant(self);
            lemma_longest_is_max(self@);
        }
        self.lens[k]
    }

    /// The sample of layer `k` that goes into sample `i` of the composed
    /// trace: the trace of the layer is walked round and round.
    pub fn source_index(&self, k: usize, i: u64) -> (source: u64)
        requires
            k < self@.len(),
        ensures
            source == i % (self@[k as int] as u64),
            source < self@[k as int],
    {
        proof {
            use_type_invariant(self);
        }
        i % self.lens[k]
    }
}

} // verus!

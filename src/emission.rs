//! Emission events: how many photons an atom scatters in a step, and the
//! events that stand for them.
use vstd::prelude::*;

verus! {

/// The sum of a sequence of counts.
pub open spec fn sum_of(s: Seq<u32>) -> int
    decreases s.len(),
{
    if s.len() == 0 {
        0
    } else {
        sum_of(s.drop_last()) + s.last() as int
    }
}

/// Adds the photon counts of an atom's emission channels (each already
/// rounded to a non-negative integer), saturating at `u32::MAX`.
pub fn scatter_count(channels: &Vec<u32>) -> (r: u32)
    ensures
        r as int == if sum_of(channels@) <= u32::MAX as int { sum_of(channels@) } else { u32::MAX as int },
{
    let mut total: u32 = 0;
    let mut i: usize = 0;
    while i < channels.len()
        invariant
            i <= channels@.len(),
            total as int == if sum_of(channels@.take(i as int)) <= u32::MAX as int {
                sum_of(channels@.take(i as int))
            } else {
                u32::MAX as int
            },
        decreases channels@.len() - i,
    {
        proof {
            assert(channels@.take(i as int + 1).drop_last() =~= channels@.take(i as int));
        }
        total = total.saturating_add(channels[i]);
        i = i + 1;
    }
    proof {
        assert(channels@.take(i as int) =~= channels@);
    }
    total
}

/// The emission of one photon: where it left and in which direction.
#[derive(Clone, Copy, Debug, PartialEq)]
pub struct PhotonEmission<V> {
    pub position: V,
    pub direction: V,
}

/// One emission event at `position` for each of `directions`, in order.
pub fn emissions_at<V: Copy>(position: V, directions: &Vec<V>) -> (r: Vec<PhotonEmission<V>>)
    ensures
        r@.len() == directions@.len(),
        forall|i: int| 0 <= i < r@.len() ==> (#[trigger] r@[i]).position == position
            && r@[i].direction == directions@[i],
{
    let mut out: Vec<PhotonEmission<V>> = Vec::new();
    let mut i: usize = 0;
    while i < directions.len()
        invariant
            i <= directions@.len(),
            out@.len() == i,
            forall|j: int| 0 <= j < i ==> (#[trigger] out@[j]).position == position
                && out@[j].direction == directions@[j],
        decreases directions@.len() - i,
    {
        out.push(PhotonEmission { position, direction: directions[i] });
        i = i + 1;
    }
    out
}

/// The events of every atom, gathered into one batch: each atom's events in
/// their order, the atoms in the order given.
pub fn collect_emissions<V: Copy>(lists: &Vec<Vec<PhotonEmission<V>>>) -> (r: Vec<PhotonEmission<V>>)
    ensures
        r@ == lists@.map_values(|l: Vec<PhotonEmission<V>>| l@).flatten(),
{
    let ghost views = lists@.map_values(|l: Vec<PhotonEmission<V>>| l@);
    let mut out: Vec<PhotonEmission<V>> = Vec::new();
    let mut k: usize = 0;
    proof {
        assert(views.take(0).flatten() =~= Seq::<PhotonEmission<V>>::empty());
    }
    while k < lists.len()
        invariant
            views == lists@.map_values(|l: Vec<PhotonEmission<V>>| l@),
            k <= lists@.len(),
            out@ == views.take(k as int).flatten(),
        decreases lists@.len() - k,
    {
        let list: &Vec<PhotonEmission<V>> = &lists[k];
        let ghost start = out@;
        let mut j: usize = 0;
        while j < list.len()
            invariant
                j <= list@.len(),
                out@ == start + list@.take(j as int),
            decreases list@.len() - j,
        {
            out.push(list[j]);
            proof {
                assert(list@.take(j as int + 1) =~= list@.take(j as int).push(list@[j as int]));
            }
            j = j + 1;
        }
        proof {
            assert(list@.take(j as int) =~= list@);
            assert(views[k as int] == list@);
            assert(views.take(k as int + 1) =~= views.take(k as int).push(views[k as int]));
            views.take(k as int).lemma_flatten_push(views[k as int]);
        }
        k = k + 1;
    }
    proof {
        assert(views.take(k as int) =~= views);
    }
    out
}

} // verus!

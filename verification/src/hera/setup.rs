//! What a node is set up with, and the pace of its load generator.
use crate::fnv_map::map_contains;
use crate::hera::data_actor::DEFAULT_MAX_CHAIN_LEAD;
use crate::hera::types::DataBlock;
use fnv::FnvHashMap;
use vstd::prelude::*;

verus! {

/// The nodes of a list without one of them.
pub open spec fn others(ids: Seq<usize>, me: usize) -> Seq<usize>
    decreases ids.len(),
{
    if ids.len() == 0 {
        Seq::empty()
    } else if ids.last() == me {
        others(ids.drop_last(), me)
    } else {
        others(ids.drop_last(), me).push(ids.last())
    }
}

/// The peers that a broadcast goes to.
pub fn broadcast_peers(all_peers: &Vec<usize>, my_id: usize) -> (r: Vec<usize>)
    ensures
        r@ == others(all_peers@, my_id),
{
    let mut out: Vec<usize> = Vec::new();
    let mut i: usize = 0;
    assert(all_peers@.take(0) =~= Seq::empty());
    while i < all_peers.len()
        invariant
            i <= all_peers@.len(),
            out@ == others(all_peers@.take(i as int), my_id),
        decreases all_peers@.len() - i,
    {
        assert(all_peers@.take(i as int + 1).drop_last() =~= all_peers@.take(i as int));
        if all_peers[i] != my_id {
            out.push(all_peers[i]);
        }
        i += 1;
    }
    assert(all_peers@.take(i as int) =~= all_peers@);
    out
}

/// A broadcast goes to every node but the one that sends it.
pub proof fn law_broadcast_skips_self(ids: Seq<usize>, me: usize, id: usize)
    ensures
        others(ids, me).contains(id) <==> ids.contains(id) && id != me,
    decreases ids.len(),
{
    if ids.len() > 0 {
        let rest = ids.drop_last();
        law_broadcast_skips_self(rest, me, id);
        assert(ids.contains(id) <==> rest.contains(id) || ids.last() == id) by {
            if rest.contains(id) {
                let j = choose|j: int| 0 <= j < rest.len() && rest[j] == id;
                assert(ids[j] == id);
            }
            if ids.contains(id) {
                let j = choose|j: int| 0 <= j < ids.len() && ids[j] == id;
                if j < rest.len() {
                    assert(rest[j] == id);
                }
            }
            assert(ids[ids.len() - 1] == ids.last());
        }
        let o = others(rest, me);
        if ids.last() != me {
            let all = o.push(ids.last());
            assert(all.contains(id) <==> o.contains(id) || ids.last() == id) by {
                if o.contains(id) {
                    let j = choose|j: int| 0 <= j < o.len() && o[j] == id;
                    assert(all[j] == id);
                }
                if ids.last() == id {
                    assert(all[o.len() as int] == id);
                }
                if all.contains(id) {
                    let j = choose|j: int| 0 <= j < all.len() && all[j] == id;
                    if j < o.len() {
                        assert(o[j] == id);
                    }
                }
            }
        }
    }
}

/// How far ahead a node may be: what it was told, or the default, but never less than 1.
pub fn max_chain_lead(configured: Option<u64>) -> (r: u64)
    ensures
        r == (match configured {
            Some(n) if n >= 1 => n,
            Some(n) => 1,
            None => DEFAULT_MAX_CHAIN_LEAD,
        }),
        r >= 1,
{
    match configured {
        Some(n) => if n >= 1 {
            n
        } else {
            1
        },
        None => DEFAULT_MAX_CHAIN_LEAD,
    }
}

/// The round timer in milliseconds: what it was told, or four network delays.
pub fn round_timer_ms(configured: Option<u64>, delay_in_ms: u64) -> (r: u64)
    requires
        configured is None ==> 4 * delay_in_ms <= u64::MAX,
    ensures
        r == (match configured {
            Some(ms) => ms as int,
            None => 4 * delay_in_ms,
        }),
{
    match configured {
        Some(ms) => ms,
        None => 4 * delay_in_ms,
    }
}

/// The window of benchmark reports in seconds, never less than 1.
pub fn emit_window_secs(configured: u64) -> (r: u64)
    ensures
        r == (if configured >= 1 {
            configured
        } else {
            1
        }),
{
    if configured >= 1 {
        configured
    } else {
        1
    }
}

/// How many transactions the load generator makes in a tenth of a second: a tenth of the rate,
/// rounded up.
pub fn txs_per_burst(tps: usize) -> (r: usize)
    ensures
        tps <= usize::MAX - 9 ==> r == (tps + 9) / 10,
        tps > usize::MAX - 9 ==> r == usize::MAX / 10,
{
    if tps <= usize::MAX - 9 {
        (tps + 9) / 10
    } else {
        usize::MAX / 10
    }
}

/// Whether the load generator pauses: the node's chain is too far ahead of what is decided of it.
pub fn generator_pauses(height: u64, committed: u64, max_chain_lead: u64) -> (r: bool)
    ensures
        r == ((if height > committed {
            height - committed
        } else {
            0
        }) >= max_chain_lead),
{
    let lead: u64 = if height > committed {
        height - committed
    } else {
        0
    };
    lead >= max_chain_lead
}

/// The author whose key a data block has to verify with, if it has one.
pub fn data_block_signer<Tx, PublicKey>(
    system: &FnvHashMap<usize, PublicKey>,
    block: &DataBlock<Tx>,
) -> (r: Option<usize>)
    ensures
        r == (if system@.contains_key(block.sig.signer) {
            Some(block.sig.signer)
        } else {
            None
        }),
{
    if map_contains(system, &block.sig.signer) {
        Some(block.sig.signer)
    } else {
        None
    }
}

/// A broadcast goes to the other peers in the order of the list, as often as they are listed.
pub proof fn law_broadcast_keeps_the_order(ids: Seq<usize>, me: usize, id: usize)
    ensures
        others(Seq::<usize>::empty(), me).len() == 0,
        id != me ==> others(ids.push(id), me) == others(ids, me).push(id),
        others(ids.push(me), me) == others(ids, me),
{
    assert(ids.push(id).drop_last() =~= ids);
    assert(ids.push(me).drop_last() =~= ids);
}

} // verus!

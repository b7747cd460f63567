//! A model of the store state the protocol touches — sets, lists, and
//! time-ordered sets keyed by name — and the laws of the enqueue
//! transactions over it: what an immediate push and a scheduled push do to
//! the store, and that registering a queue twice adds it once.

use vstd::prelude::*;

use crate::client::{payloads_of, queue_key, raw_push_txn, schedule_key};
use crate::digits::dec_int;
use crate::job::{wire_val, JobView};
use crate::json::enc_val;
use crate::proto::CmdView;

verus! {

broadcast use vstd::seq::group_seq_axioms;

/// The store state the protocol touches: plain sets, lists (head first),
/// and time-ordered sets mapping each member to its score.
pub ghost struct StoreModel {
    pub sets: Map<Seq<char>, Set<Seq<char>>>,
    pub lists: Map<Seq<char>, Seq<Seq<char>>>,
    pub zsets: Map<Seq<char>, Map<Seq<char>, Seq<char>>>,
}

/// The set at `key`, empty when the key is absent.
pub open spec fn set_at(m: StoreModel, key: Seq<char>) -> Set<Seq<char>> {
    if m.sets.contains_key(key) {
        m.sets[key]
    } else {
        Set::empty()
    }
}

/// The list at `key`, head first, empty when the key is absent.
pub open spec fn list_at(m: StoreModel, key: Seq<char>) -> Seq<Seq<char>> {
    if m.lists.contains_key(key) {
        m.lists[key]
    } else {
        Seq::empty()
    }
}

/// The time-ordered set at `key`, empty when the key is absent.
pub open spec fn zset_at(m: StoreModel, key: Seq<char>) -> Map<Seq<char>, Seq<char>> {
    if m.zsets.contains_key(key) {
        m.zsets[key]
    } else {
        Map::empty()
    }
}

/// Adds every member with the given score; a member already present is
/// rescored, not duplicated.
pub open spec fn zadd_members(
    z: Map<Seq<char>, Seq<char>>,
    score: Seq<char>,
    members: Seq<Seq<char>>,
) -> Map<Seq<char>, Seq<char>>
    decreases members.len(),
{
    if members.len() == 0 {
        z
    } else {
        zadd_members(z, score, members.drop_last()).insert(members.last(), score)
    }
}

/// One command's effect on the store: `SADD key member` inserts into a
/// set; `LPUSH key p1 .. pn` pushes each payload in turn at the head, so
/// the last ends up first; `ZADD key score members..` scores members in a
/// time-ordered set. Any other command leaves the model untouched.
pub open spec fn apply_cmd(m: StoreModel, c: CmdView) -> StoreModel {
    if c.name == "SADD"@ && c.args.len() == 2 {
        StoreModel {
            sets: m.sets.insert(c.args[0], set_at(m, c.args[0]).insert(c.args[1])),
            lists: m.lists,
            zsets: m.zsets,
        }
    } else if c.name == "LPUSH"@ && c.args.len() >= 2 {
        StoreModel {
            sets: m.sets,
            lists: m.lists.insert(c.args[0], c.args.skip(1).reverse() + list_at(m, c.args[0])),
            zsets: m.zsets,
        }
    } else if c.name == "ZADD"@ && c.args.len() >= 3 {
        StoreModel {
            sets: m.sets,
            lists: m.lists,
            zsets: m.zsets.insert(
                c.args[0],
                zadd_members(zset_at(m, c.args[0]), c.args[1], c.args.skip(2)),
            ),
        }
    } else {
        m
    }
}

/// A transaction's effect: its commands apply in order, atomically.
pub open spec fn apply_txn(m: StoreModel, t: Seq<CmdView>) -> StoreModel
    decreases t.len(),
{
    if t.len() == 0 {
        m
    } else {
        apply_txn(apply_cmd(m, t[0]), t.skip(1))
    }
}

/// The three command names are pairwise distinct.
proof fn lemma_cmd_names_distinct()
    ensures
        "SADD"@ != "LPUSH"@,
        "SADD"@ != "ZADD"@,
        "LPUSH"@ != "ZADD"@,
{
    reveal_strlit("SADD");
    reveal_strlit("LPUSH");
    reveal_strlit("ZADD");
    assert("SADD"@[0] == 'S' && "ZADD"@[0] == 'Z');
    assert("SADD"@.len() == 4 && "LPUSH"@.len() == 5);
}

/// Law: an immediate push registers the first job's queue in the global
/// `queues` set and prepends the payloads, in call order, to that queue's
/// list — so the last job pushed is the head element — and touches
/// nothing else: no other set, no other list, no time-ordered set.
pub proof fn lemma_immediate_push_effect(
    m: StoreModel,
    ns: Option<Seq<char>>,
    jobs: Seq<JobView>,
)
    requires
        jobs.len() >= 1,
    ensures
        ({
            let m2 = apply_txn(m, raw_push_txn(ns, jobs, Option::None));
            let qk = queue_key(ns, jobs[0].queue);
            &&& m2.sets == m.sets.insert(
                "queues"@,
                set_at(m, "queues"@).insert(jobs[0].queue),
            )
            &&& set_at(m2, "queues"@).contains(jobs[0].queue)
            &&& m2.lists == m.lists.insert(qk, payloads_of(jobs).reverse() + list_at(m, qk))
            &&& list_at(m2, qk) == payloads_of(jobs).reverse() + list_at(m, qk)
            &&& list_at(m2, qk)[0] == enc_val(wire_val(jobs.last()))
            &&& m2.zsets == m.zsets
        }),
{
    lemma_cmd_names_distinct();
    let t = raw_push_txn(ns, jobs, Option::None);
    let u = t.skip(1);
    let m1 = apply_cmd(m, t[0]);
    assert(apply_txn(m, t) == apply_txn(m1, u));
    assert(u.len() == 1 && u[0] == t[1]);
    let m2 = apply_cmd(m1, u[0]);
    assert(apply_txn(m1, u) == apply_txn(m2, u.skip(1)));
    assert(u.skip(1).len() == 0);
    assert(apply_txn(m2, u.skip(1)) == m2);
    let qk = queue_key(ns, jobs[0].queue);
    let c1 = t[1];
    assert(c1.args.skip(1) =~= payloads_of(jobs));
    assert(payloads_of(jobs).reverse()[0] == payloads_of(jobs)[jobs.len() - 1]);
    assert(list_at(m2, qk)[0] == enc_val(wire_val(jobs.last())));
}

/// Law: a scheduled push adds the payloads to the global schedule set,
/// each scored by the effective timestamp, and touches nothing else — in
/// particular the `queues` set is unchanged: scheduled jobs are not
/// registered in the live-queue registry.
pub proof fn lemma_schedule_push_effect(
    m: StoreModel,
    ns: Option<Seq<char>>,
    jobs: Seq<JobView>,
    ts: int,
)
    requires
        jobs.len() >= 1,
    ensures
        ({
            let m2 = apply_txn(m, raw_push_txn(ns, jobs, Option::Some(ts)));
            let sk = schedule_key(ns);
            &&& m2.sets == m.sets
            &&& m2.lists == m.lists
            &&& m2.zsets == m.zsets.insert(
                sk,
                zadd_members(zset_at(m, sk), dec_int(ts), payloads_of(jobs)),
            )
            &&& zset_at(m2, sk).contains_key(enc_val(wire_val(jobs.last())))
            &&& zset_at(m2, sk)[enc_val(wire_val(jobs.last()))] == dec_int(ts)
        }),
{
    lemma_cmd_names_distinct();
    let t = raw_push_txn(ns, jobs, Option::Some(ts));
    let m2 = apply_cmd(m, t[0]);
    assert(apply_txn(m, t) == apply_txn(m2, t.skip(1)));
    assert(t.skip(1).len() == 0);
    assert(apply_txn(m2, t.skip(1)) == m2);
    let c = t[0];
    assert(c.args.skip(2) =~= payloads_of(jobs));
    let sk = schedule_key(ns);
    assert(payloads_of(jobs).last() == enc_val(wire_val(jobs.last())));
}

/// Law: pushing to the same queue twice registers it once — the second
/// push leaves the `queues` set exactly as the first left it.
pub proof fn lemma_queue_registration_idempotent(
    m: StoreModel,
    ns: Option<Seq<char>>,
    jobs1: Seq<JobView>,
    jobs2: Seq<JobView>,
)
    requires
        jobs1.len() >= 1,
        jobs2.len() >= 1,
        jobs1[0].queue == jobs2[0].queue,
    ensures
        ({
            let m1 = apply_txn(m, raw_push_txn(ns, jobs1, Option::None));
            let m2 = apply_txn(m1, raw_push_txn(ns, jobs2, Option::None));
            set_at(m2, "queues"@) == set_at(m1, "queues"@)
        }),
{
    let m1 = apply_txn(m, raw_push_txn(ns, jobs1, Option::None));
    let m2 = apply_txn(m1, raw_push_txn(ns, jobs2, Option::None));
    lemma_immediate_push_effect(m, ns, jobs1);
    lemma_immediate_push_effect(m1, ns, jobs2);
    assert(set_at(m2, "queues"@) =~= set_at(m1, "queues"@));
}

} // verus!

//! The enqueue engine: key naming under an optional namespace, and the
//! four enqueue operations, each computing the atomic transaction that
//! registers the queue and pushes the serialized payloads, or adds them to
//! the schedule set.

use vstd::prelude::*;
use vstd::string::{StrSliceExecFns, StringExecFns};

use crate::calc::{calc_at, calc_at_spec, SCHEDULE_THRESHOLD};
use crate::digits::{dec_int, i64_to_dec};
use crate::job::{wire_val, Job, JobView};
use crate::json::enc_val;
use crate::proto::{lpush_cmd, sadd_queues_cmd, zadd_cmd, CmdView, StoreCmd, Transaction};

verus! {

broadcast use vstd::seq::group_seq_axioms, vstd::std_specs::vec::group_vec_axioms;

/// The options a client is constructed with: at most a namespace prefix
/// for every key the client derives.
pub struct ClientOpts {
    pub namespace: Option<String>,
}

/// The enqueue engine. It holds the namespace applied to all derived
/// keys; transactions it computes are executed against the store by the
/// caller.
pub struct Client {
    pub namespace: Option<String>,
}

/// The namespace as a sequence, when one is set.
pub open spec fn ns_view(ns: Option<String>) -> Option<Seq<char>> {
    match ns {
        Option::None => Option::None,
        Option::Some(n) => Option::Some(n@),
    }
}

/// The store key of a queue's list: `queue:<queue>`, prefixed by
/// `<ns>:` when a namespace is set.
pub open spec fn queue_key(ns: Option<Seq<char>>, queue: Seq<char>) -> Seq<char> {
    match ns {
        Option::None => "queue:"@ + queue,
        Option::Some(n) => n + ":queue:"@ + queue,
    }
}

/// The store key of the global schedule set: `schedule`, prefixed by
/// `<ns>:` when a namespace is set.
pub open spec fn schedule_key(ns: Option<Seq<char>>) -> Seq<char> {
    match ns {
        Option::None => "schedule"@,
        Option::Some(n) => n + ":schedule"@,
    }
}

/// The views of the given jobs, in order.
pub open spec fn job_views(jobs: Seq<Job>) -> Seq<JobView> {
    Seq::new(jobs.len(), |i: int| jobs[i]@)
}

/// The serialized payloads of the given jobs, in order.
pub open spec fn payloads_of(jobs: Seq<JobView>) -> Seq<Seq<char>> {
    Seq::new(jobs.len(), |i: int| enc_val(wire_val(jobs[i])))
}

/// The transaction a push computes. With no timestamp: register the first
/// job's queue in the global `queues` set (result ignored), then push
/// every payload, in call order, onto the head of that queue's list. With
/// a timestamp: add the payloads to the global schedule set, scored by the
/// timestamp; no queue registration happens.
pub open spec fn raw_push_txn(
    ns: Option<Seq<char>>,
    jobs: Seq<JobView>,
    at: Option<int>,
) -> Seq<CmdView>
    recommends
        jobs.len() >= 1,
{
    match at {
        Option::None => seq![
            sadd_queues_cmd(jobs[0].queue),
            lpush_cmd(queue_key(ns, jobs[0].queue), payloads_of(jobs)),
        ],
        Option::Some(ts) => seq![zadd_cmd(schedule_key(ns), dec_int(ts), payloads_of(jobs))],
    }
}

impl Client {
    /// Builds a client with the namespace from the options.
    pub fn new(opts: ClientOpts) -> (c: Client)
        ensures
            ns_view(c.namespace) == ns_view(opts.namespace),
    {
        Client { namespace: opts.namespace }
    }

    /// Derives the store key of `queue`'s list.
    pub fn queue_name(&self, queue: &str) -> (r: String)
        ensures
            r@ == queue_key(ns_view(self.namespace), queue@),
    {
        match &self.namespace {
            Option::None => {
                let mut r = String::from_str("queue:");
                r.append(queue);
                r
            },
            Option::Some(ns) => {
                let mut r = ns.clone();
                r.append(":queue:");
                r.append(queue);
                proof {
                    assert(r@ =~= ns@ + ":queue:"@ + queue@);
                }
                r
            },
        }
    }

    /// Derives the store key of the schedule set.
    pub fn schedule_queue_name(&self) -> (r: String)
        ensures
            r@ == schedule_key(ns_view(self.namespace)),
    {
        match &self.namespace {
            Option::None => String::from_str("schedule"),
            Option::Some(ns) => {
                let mut r = ns.clone();
                r.append(":schedule");
                r
            },
        }
    }

    /// Computes the transaction for the given jobs: an immediate push when
    /// `at` is `None`, a scheduled one otherwise. The queue and its key
    /// are derived from the first job alone; every job in one call is
    /// expected to target the same queue.
    pub fn raw_push(&self, jobs: &Vec<Job>, at: Option<i64>) -> (t: Transaction)
        requires
            jobs@.len() >= 1,
        ensures
            t@ == raw_push_txn(
                ns_view(self.namespace),
                job_views(jobs@),
                match at {
                    Option::None => Option::None::<int>,
                    Option::Some(ts) => Option::Some(ts as int),
                },
            ),
    {
        let ghost gjobs = job_views(jobs@);
        let mut payloads: Vec<String> = Vec::new();
        let mut i: usize = 0;
        while i < jobs.len()
            invariant
                i <= jobs@.len(),
                gjobs == job_views(jobs@),
                payloads@.len() == i,
                forall|k: int|
                    0 <= k < i ==> (#[trigger] payloads@[k])@ == enc_val(wire_val(gjobs[k])),
            decreases jobs@.len() - i,
        {
            let p = jobs[i].serialize();
            payloads.push(p);
            i = i + 1;
        }
        let ghost gp = Seq::new(payloads@.len(), |k: int| payloads@[k]@);
        proof {
            assert(gp =~= payloads_of(gjobs));
        }
        let mut cmds: Vec<StoreCmd> = Vec::new();
        match at {
            Option::None => {
                let sadd = StoreCmd::sadd_queues(jobs[0].queue.as_str());
                let key = self.queue_name(jobs[0].queue.as_str());
                let push = StoreCmd::lpush(key, payloads);
                cmds.push(sadd);
                cmds.push(push);
                let t = Transaction { cmds };
                proof {
                    assert(t@ =~= raw_push_txn(
                        ns_view(self.namespace),
                        gjobs,
                        Option::None::<int>,
                    ));
                }
                t
            },
            Option::Some(ts) => {
                let key = self.schedule_queue_name();
                let score = i64_to_dec(ts);
                let add = StoreCmd::zadd(key, score, payloads);
                cmds.push(add);
                let t = Transaction { cmds };
                proof {
                    assert(t@ =~= raw_push_txn(
                        ns_view(self.namespace),
                        gjobs,
                        Option::Some(ts as int),
                    ));
                }
                t
            },
        }
    }

    /// Computes the immediate-push transaction for one job.
    pub fn push(&self, job: Job) -> (t: Transaction)
        ensures
            t@ == raw_push_txn(ns_view(self.namespace), seq![job@], Option::None::<int>),
    {
        let ghost gj = job@;
        let jobs = vec![job];
        proof {
            assert(job_views(jobs@) =~= seq![gj]);
        }
        self.raw_push(&jobs, Option::None)
    }

    /// Computes the immediate-push transaction for a non-empty batch of
    /// jobs: one round trip however many jobs. The queue is derived from
    /// the first job alone; all jobs in one call must target the same
    /// queue.
    pub fn push_bulk(&self, jobs: &Vec<Job>) -> (t: Transaction)
        requires
            jobs@.len() >= 1,
        ensures
            t@ == raw_push_txn(ns_view(self.namespace), job_views(jobs@), Option::None::<int>),
    {
        self.raw_push(jobs, Option::None)
    }

    /// Computes the scheduling transaction for one job to run after
    /// `interval` seconds (an interval at or above the threshold is taken
    /// as an absolute timestamp). Returns `None`, and nothing is to be
    /// pushed, when the effective timestamp is not strictly in the future.
    pub fn perform_in(&self, interval: i64, job: Job) -> (r: Option<Transaction>)
        ensures
            r matches Some(t) ==> exists|now: int|
                {
                    &&& #[trigger] calc_at_spec(now, interval as int) matches Some(ts)
                    &&& t@ == raw_push_txn(
                        ns_view(self.namespace),
                        seq![job@],
                        Option::Some(ts),
                    )
                },
    {
        let now = crate::clock::now_unix();
        self.schedule_push(now, interval, job)
    }

    /// Computes the scheduling transaction for one job to run at the
    /// absolute Unix timestamp `timestamp` (a value below the threshold is
    /// taken as a relative offset). Returns `None`, and nothing is to be
    /// pushed, when the effective timestamp is not strictly in the future.
    pub fn perform_at(&self, timestamp: i64, job: Job) -> (r: Option<Transaction>)
        ensures
            r matches Some(t) ==> exists|now: int|
                {
                    &&& #[trigger] calc_at_spec(now, timestamp as int) matches Some(ts)
                    &&& t@ == raw_push_txn(
                        ns_view(self.namespace),
                        seq![job@],
                        Option::Some(ts),
                    )
                },
    {
        let now = crate::clock::now_unix();
        self.schedule_push(now, timestamp, job)
    }

    /// The shared scheduling path: resolves the raw value against `now`
    /// and computes the schedule transaction, or `None` when no timestamp
    /// strictly after `now` comes out (or the sum would not be
    /// representable).
    pub fn schedule_push(&self, now: i64, raw: i64, job: Job) -> (r: Option<Transaction>)
        ensures
            r is Some <==> (calc_at_spec(now as int, raw as int) is Some && (raw
                < SCHEDULE_THRESHOLD ==> i64::MIN <= now + raw <= i64::MAX)),
            r matches Some(t) ==> {
                &&& calc_at_spec(now as int, raw as int) matches Some(ts)
                &&& t@ == raw_push_txn(ns_view(self.namespace), seq![job@], Option::Some(ts))
            },
    {
        if raw < SCHEDULE_THRESHOLD && now.checked_add(raw).is_none() {
            return Option::None;
        }
        let at = calc_at(now, raw);
        match at {
            Option::None => Option::None,
            Option::Some(ts) => {
                let ghost gj = job@;
                let jobs = vec![job];
                proof {
                    assert(job_views(jobs@) =~= seq![gj]);
                }
                Option::Some(self.raw_push(&jobs, Option::Some(ts)))
            },
        }
    }
}

} // verus!

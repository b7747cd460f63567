//! The atomic multi-command store protocol: the commands a push or a
//! schedule issues, as plain data. A transaction is applied by the store as
//! one indivisible unit; executing it against a live store is the caller's
//! side of the boundary.

use vstd::prelude::*;
use vstd::string::StringExecFns;

verus! {

broadcast use vstd::seq::group_seq_axioms, vstd::std_specs::vec::group_vec_axioms;

/// The mathematical content of one store command: the view of [`StoreCmd`].
pub ghost struct CmdView {
    pub name: Seq<char>,
    pub args: Seq<Seq<char>>,
    pub ignore: bool,
}

/// One store command: its name, its arguments in wire order, and whether
/// the command's reply is ignored within the transaction.
pub struct StoreCmd {
    pub name: String,
    pub args: Vec<String>,
    pub ignore: bool,
}

impl View for StoreCmd {
    type V = CmdView;

    open spec fn view(&self) -> CmdView {
        CmdView {
            name: self.name@,
            args: Seq::new(self.args@.len(), |i: int| self.args@[i]@),
            ignore: self.ignore,
        }
    }
}

/// An atomic multi-command transaction: the commands apply in order, as
/// one indivisible unit, or not at all.
pub struct Transaction {
    pub cmds: Vec<StoreCmd>,
}

impl View for Transaction {
    type V = Seq<CmdView>;

    open spec fn view(&self) -> Seq<CmdView> {
        Seq::new(self.cmds@.len(), |i: int| self.cmds@[i]@)
    }
}

/// The command that registers a queue name in the global `queues` set; its
/// reply is ignored. Duplicate adds are idempotent set inserts.
pub open spec fn sadd_queues_cmd(queue: Seq<char>) -> CmdView {
    CmdView { name: "SADD"@, args: seq!["queues"@, queue], ignore: true }
}

/// The command that pushes `payloads`, in order, onto the head of the list
/// at `key`: after it, the last payload is the head element.
pub open spec fn lpush_cmd(key: Seq<char>, payloads: Seq<Seq<char>>) -> CmdView {
    CmdView { name: "LPUSH"@, args: seq![key] + payloads, ignore: false }
}

/// The command that adds `payloads` to the time-ordered set at `key`,
/// scored by `score`.
pub open spec fn zadd_cmd(key: Seq<char>, score: Seq<char>, payloads: Seq<Seq<char>>) -> CmdView {
    CmdView { name: "ZADD"@, args: seq![key, score] + payloads, ignore: false }
}

/// Builds one command as a value.
fn mk_cmd(name: &str, args: Vec<String>, ignore: bool) -> (c: StoreCmd)
    ensures
        c@.name == name@,
        c@.args.len() == args@.len(),
        (forall|i: int| 0 <= i < args@.len() ==> #[trigger] c@.args[i] == args@[i]@),
        c@.ignore == ignore,
{
    StoreCmd { name: String::from_str(name), args, ignore }
}

impl StoreCmd {
    /// Builds the queue-registration command.
    pub fn sadd_queues(queue: &str) -> (c: StoreCmd)
        ensures
            c@ == sadd_queues_cmd(queue@),
    {
        let mut args: Vec<String> = Vec::new();
        args.push(String::from_str("queues"));
        args.push(String::from_str(queue));
        let c = mk_cmd("SADD", args, true);
        proof {
            assert(c@.args =~= seq!["queues"@, queue@]);
            assert(c@ == sadd_queues_cmd(queue@));
        }
        c
    }

    /// Builds the list-push command.
    pub fn lpush(key: String, payloads: Vec<String>) -> (c: StoreCmd)
        ensures
            c@ == lpush_cmd(key@, Seq::new(payloads@.len(), |i: int| payloads@[i]@)),
    {
        let ghost gkey = key@;
        let ghost gp = Seq::new(payloads@.len(), |i: int| payloads@[i]@);
        let mut args = payloads;
        args.insert(0, key);
        let c = mk_cmd("LPUSH", args, false);
        proof {
            assert(c@.args =~= seq![gkey] + gp);
            assert(c@ == lpush_cmd(gkey, gp));
        }
        c
    }

    /// Builds the time-ordered-set command.
    pub fn zadd(key: String, score: String, payloads: Vec<String>) -> (c: StoreCmd)
        ensures
            c@ == zadd_cmd(key@, score@, Seq::new(payloads@.len(), |i: int| payloads@[i]@)),
    {
        let ghost gkey = key@;
        let ghost gscore = score@;
        let ghost gp = Seq::new(payloads@.len(), |i: int| payloads@[i]@);
        let mut args = payloads;
        args.insert(0, score);
        args.insert(0, key);
        let c = mk_cmd("ZADD", args, false);
        proof {
            assert(c@.args =~= seq![gkey, gscore] + gp);
            assert(c@ == zadd_cmd(gkey, gscore, gp));
        }
        c
    }
}

} // verus!

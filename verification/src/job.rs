//! The job record: one unit of work with its metadata, and its canonical
//! wire serialization, a JSON object with exactly seven fields.

use vstd::prelude::*;
use vstd::string::{StrSliceExecFns, StringExecFns};

use crate::json::{
    enc_members, enc_val, encode_json_arr, encode_json_str, view_arr, JsonVal, JsonValue,
};

verus! {

broadcast use vstd::seq::group_seq_axioms, vstd::std_specs::vec::group_vec_axioms;

/// A character allowed in a job identifier: ASCII alphanumeric.
pub open spec fn is_jid_char(c: char) -> bool {
    ('a' <= c && c <= 'z') || ('A' <= c && c <= 'Z') || ('0' <= c && c <= '9')
}

/// A well-formed job identifier: exactly 24 alphanumeric characters.
pub open spec fn is_jid(s: Seq<char>) -> bool {
    s.len() == 24 && forall|i: int| 0 <= i < s.len() ==> is_jid_char(#[trigger] s[i])
}

/// The mathematical content of a job record: the view of [`Job`].
pub ghost struct JobView {
    pub class: Seq<char>,
    pub args: Seq<JsonVal>,
    pub retry: int,
    pub queue: Seq<char>,
    pub jid: Seq<char>,
    pub created_at: int,
    pub enqueued_at: int,
}

/// One unit of work: the consumer-side handler name, its arguments, the
/// retry budget, the target queue, a unique identifier, and creation
/// timestamps (seconds since the Unix epoch).
pub struct Job {
    pub class: String,
    pub args: Vec<JsonValue>,
    pub retry: i64,
    pub queue: String,
    pub jid: String,
    pub created_at: u64,
    pub enqueued_at: u64,
}

impl View for Job {
    type V = JobView;

    open spec fn view(&self) -> JobView {
        JobView {
            class: self.class@,
            args: view_arr(self.args@),
            retry: self.retry as int,
            queue: self.queue@,
            jid: self.jid@,
            created_at: self.created_at as int,
            enqueued_at: self.enqueued_at as int,
        }
    }
}

/// The seven members of the wire object, in wire order.
pub open spec fn wire_members(v: JobView) -> Seq<(Seq<char>, JsonVal)> {
    seq![
        ("class"@, JsonVal::Str(v.class)),
        ("args"@, JsonVal::Arr(v.args)),
        ("retry"@, JsonVal::Int(v.retry)),
        ("queue"@, JsonVal::Str(v.queue)),
        ("jid"@, JsonVal::Str(v.jid)),
        ("created_at"@, JsonVal::Int(v.created_at)),
        ("enqueued_at"@, JsonVal::Int(v.enqueued_at)),
    ]
}

/// The wire form of a job: the JSON object consumers of the job format
/// read.
pub open spec fn wire_val(v: JobView) -> JsonVal {
    JsonVal::Obj(wire_members(v))
}

/// The options a job is constructed with. Defaults are a retry budget of
/// 25, queue "default", a fresh random identifier, and both timestamps set
/// to now.
pub struct JobOpts {
    pub retry: i64,
    pub queue: String,
    pub jid: String,
    pub created_at: u64,
    pub enqueued_at: u64,
}

/// Relies on rand's `Alphanumeric` distribution (`rand::distr::Alphanumeric`,
/// sampled from `rand::rng()`): every sample is one of the sixty-two ASCII
/// characters a-z, A-Z, 0-9, drawn uniformly.
#[verifier::external_body]
fn sample_alphanumeric() -> (s: String)
    ensures
        s@.len() == 1,
        is_jid_char(s@[0]),
{
    let b: u8 = rand::RngExt::sample(&mut rand::rng(), rand::distr::Alphanumeric);
    String::from(b as char)
}

/// A fresh job identifier: 24 random alphanumeric characters.
fn fresh_jid() -> (s: String)
    ensures
        is_jid(s@),
{
    let mut s = String::new();
    let mut i: usize = 0;
    while i < 24
        invariant
            i <= 24,
            s@.len() == i,
            forall|k: int| 0 <= k < i ==> is_jid_char(#[trigger] s@[k]),
        decreases 24 - i,
    {
        let c = sample_alphanumeric();
        s.append(c.as_str());
        i = i + 1;
    }
    s
}

impl Default for JobOpts {
    /// The default options: retry budget 25, queue "default", a fresh
    /// random 24-character identifier, and both timestamps the current
    /// time (clamped to zero should the clock report a pre-epoch time).
    fn default() -> (r: JobOpts)
        ensures
            r.retry == 25,
            r.queue@ == "default"@,
            is_jid(r.jid@),
            r.created_at == r.enqueued_at,
    {
        let now_raw = crate::clock::now_unix();
        let now: u64 = if now_raw < 0 {
            0
        } else {
            now_raw as u64
        };
        JobOpts {
            retry: 25,
            queue: String::from_str("default"),
            jid: fresh_jid(),
            created_at: now,
            enqueued_at: now,
        }
    }
}

impl Job {
    /// Builds the job record: `class` and `args` as given, everything else
    /// from the options.
    pub fn new(class: String, args: Vec<JsonValue>, opts: JobOpts) -> (j: Job)
        ensures
            j@.class == class@,
            j@.args == view_arr(args@),
            j@.retry == opts.retry as int,
            j@.queue == opts.queue@,
            j@.jid == opts.jid@,
            j@.created_at == opts.created_at as int,
            j@.enqueued_at == opts.enqueued_at as int,
    {
        Job {
            class,
            args,
            retry: opts.retry,
            queue: opts.queue,
            jid: opts.jid,
            created_at: opts.created_at,
            enqueued_at: opts.enqueued_at,
        }
    }

    /// Serializes the job to its canonical wire form: the JSON object with
    /// exactly the seven fields class, args, retry, queue, jid,
    /// created_at, enqueued_at, in that order.
    #[verifier::rlimit(100)]
    pub fn serialize(&self) -> (out: String)
        ensures
            out@ == enc_val(wire_val(self@)),
    {
        let ghost gm = wire_members(self@);
        let mut out = String::from_str("{");
        proof {
            reveal_strlit("{");
            reveal_strlit(":");
            reveal_strlit(",");
        }

        let k = encode_json_str("class");
        out.append(k.as_str());
        out.append(":");
        let p = encode_json_str(self.class.as_str());
        out.append(p.as_str());
        proof {
            crate::json::lemma_enc_members_snoc(gm, 0);
            assert(out@ =~= seq!['{'] + enc_members(gm.take(1)));
        }

        out.append(",");
        let k = encode_json_str("args");
        out.append(k.as_str());
        out.append(":");
        let p = encode_json_arr(&self.args);
        out.append(p.as_str());
        proof {
            crate::json::lemma_enc_members_snoc(gm, 1);
            assert(out@ =~= seq!['{'] + enc_members(gm.take(2)));
        }

        out.append(",");
        let k = encode_json_str("retry");
        out.append(k.as_str());
        out.append(":");
        let p = crate::digits::i64_to_dec(self.retry);
        out.append(p.as_str());
        proof {
            crate::json::lemma_enc_members_snoc(gm, 2);
            assert(out@ =~= seq!['{'] + enc_members(gm.take(3)));
        }

        out.append(",");
        let k = encode_json_str("queue");
        out.append(k.as_str());
        out.append(":");
        let p = encode_json_str(self.queue.as_str());
        out.append(p.as_str());
        proof {
            crate::json::lemma_enc_members_snoc(gm, 3);
            assert(out@ =~= seq!['{'] + enc_members(gm.take(4)));
        }

        out.append(",");
        let k = encode_json_str("jid");
        out.append(k.as_str());
        out.append(":");
        let p = encode_json_str(self.jid.as_str());
        out.append(p.as_str());
        proof {
            crate::json::lemma_enc_members_snoc(gm, 4);
            assert(out@ =~= seq!['{'] + enc_members(gm.take(5)));
        }

        out.append(",");
        let k = encode_json_str("created_at");
        out.append(k.as_str());
        out.append(":");
        let p = crate::digits::u64_to_dec(self.created_at);
        out.append(p.as_str());
        proof {
            crate::json::lemma_enc_members_snoc(gm, 5);
            assert(out@ =~= seq!['{'] + enc_members(gm.take(6)));
        }

        out.append(",");
        let k = encode_json_str("enqueued_at");
        out.append(k.as_str());
        out.append(":");
        let p = crate::digits::u64_to_dec(self.enqueued_at);
        out.append(p.as_str());
        proof {
            crate::json::lemma_enc_members_snoc(gm, 6);
            assert(out@ =~= seq!['{'] + enc_members(gm.take(7)));
            assert(gm.take(7) =~= gm);
        }
        out.append("}");
        proof {
            reveal_strlit("}");
            assert(out@ =~= seq!['{'] + enc_members(gm) + seq!['}']);
        }
        out
    }
}

} // verus!

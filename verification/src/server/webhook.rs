//! The GitHub push webhook: which pushes trigger a run, and the run they record.
use vstd::prelude::*;

use crate::cache::{hex_lower, hex_spec, sha256, sha256_spec};
use crate::server::api::RunRecord;
use crate::text::{push_str, str_equal, strip_prefix_all, to_string, trim_start_matches};

verus! {

/// Config with explicit lifetime: borrows the webhook secret from the caller.
pub struct WebhookConfig<'a> {
    pub secret: &'a str,
    pub branch_filter: Option<&'a str>,
}

impl<'a> WebhookConfig<'a> {
    /// Every branch matches when there is no filter; otherwise only the filter's branch.
    pub fn matches_branch(&self, branch: &str) -> (res: bool)
        ensures
            res == match self.branch_filter {
                Some(f) => branch@ == f@,
                None => true,
            },
    {
        match self.branch_filter {
            Some(f) => str_equal(branch, f),
            None => true,
        }
    }
}

/// The fields of a GitHub push event that a run needs, each present only where
/// the payload holds a string there: `ref`, `after` and `repository.full_name`.
#[derive(Clone, Debug)]
pub struct PushPayload {
    pub git_ref: Option<String>,
    pub after: Option<String>,
    pub repo_full_name: Option<String>,
}

/// A field, or `unknown` where it is missing.
pub open spec fn or_unknown(f: Option<String>) -> Seq<char> {
    match f {
        Some(s) => s@,
        None => "unknown"@,
    }
}

fn or_unknown_exec(f: &Option<String>) -> (res: String)
    ensures
        res@ == or_unknown(*f),
{
    match f {
        Some(s) => s.clone(),
        None => to_string("unknown"),
    }
}

/// The branch, commit and repository of a push event: the branch is the ref
/// without its leading `refs/heads/` (repeated); a missing field reads `unknown`.
pub fn parse_push_event(payload: &PushPayload) -> (res: (String, String, String))
    ensures
        res.0@ == strip_prefix_all(or_unknown(payload.git_ref), "refs/heads/"@),
        res.1@ == or_unknown(payload.after),
        res.2@ == or_unknown(payload.repo_full_name),
{
    let r = or_unknown_exec(&payload.git_ref);
    proof {
        reveal_strlit("refs/heads/");
    }
    let branch = trim_start_matches(r.as_str(), "refs/heads/");
    (branch, or_unknown_exec(&payload.after), or_unknown_exec(&payload.repo_full_name))
}

/// What the webhook answers.
#[derive(Clone, Debug)]
pub enum WebhookOutcome {
    /// 401: the signature does not match.
    InvalidSignature,
    /// 400: the body is not JSON.
    BadJson,
    /// 200: the branch does not pass the filter.
    Ignored,
    /// 200: a run was recorded with this id; the server then runs the pipeline for it.
    Triggered { run_id: u64, branch: String, commit: String },
}

/// Handles a push: refuses a body whose `X-Hub-Signature-256` (empty when
/// missing) is not the HMAC of the body under the secret, then a body that is
/// not JSON (`payload` is `None`), ignores a branch that the filter does not
/// match, and otherwise records a run with the next id and status `triggered`.
pub fn handle_push(
    cfg: &WebhookConfig,
    body: &[u8],
    signature: &str,
    payload: Option<&PushPayload>,
    runs: &mut Vec<RunRecord>,
) -> (res: WebhookOutcome)
    requires
        old(runs)@.len() < u64::MAX,
    ensures
        signature@ != github_signature(cfg.secret@, body@) ==> res is InvalidSignature
            && final(runs)@ == old(runs)@,
        signature@ == github_signature(cfg.secret@, body@) && payload is None ==> res is BadJson
            && final(runs)@ == old(runs)@,
        signature@ == github_signature(cfg.secret@, body@) && payload is Some ==> {
            let p = payload->Some_0;
            let branch = strip_prefix_all(or_unknown(p.git_ref), "refs/heads/"@);
            let matched = match cfg.branch_filter {
                Some(f) => branch == f@,
                None => true,
            };
            &&& !matched ==> res is Ignored && final(runs)@ == old(runs)@
            &&& matched ==> {
                &&& res matches WebhookOutcome::Triggered { run_id, branch: b, commit: c } && run_id
                    == old(runs)@.len() + 1 && b@ == branch && c@ == or_unknown(p.after)
                &&& final(runs)@.len() == old(runs)@.len() + 1
                &&& final(runs)@.take(old(runs)@.len() as int) == old(runs)@
                &&& final(runs)@.last().id == old(runs)@.len() + 1
                &&& final(runs)@.last().pipeline@ == or_unknown(p.repo_full_name)
                &&& final(runs)@.last().branch@ == branch
                &&& final(runs)@.last().commit@ == or_unknown(p.after)
                &&& final(runs)@.last().status@ == "triggered"@
            }
        },
{
    if !verify_github_signature(cfg.secret, body, signature) {
        return WebhookOutcome::InvalidSignature;
    }
    let p = match payload {
        Some(p) => p,
        None => return WebhookOutcome::BadJson,
    };
    let (branch, commit, repo) = parse_push_event(p);
    if !cfg.matches_branch(branch.as_str()) {
        return WebhookOutcome::Ignored;
    }
    let id = runs.len() as u64 + 1;
    runs.push(
        RunRecord {
            id,
            pipeline: repo,
            branch: branch.clone(),
            commit: commit.clone(),
            status: to_string("triggered"),
        },
    );
    proof {
        assert(runs@.take(old(runs)@.len() as int) =~= old(runs)@);
    }
    WebhookOutcome::Triggered { run_id: id, branch, commit }
}

/// Law: runs recorded one after another on an empty store get the ids 1, 2, 3, ...
pub proof fn lemma_run_ids_sequential(before: Seq<RunRecord>, after: Seq<RunRecord>)
    requires
        forall|i: int| 0 <= i < before.len() ==> (#[trigger] before[i]).id == i + 1,
        after.len() == before.len() + 1,
        after.take(before.len() as int) == before,
        after.last().id == before.len() + 1,
    ensures
        forall|i: int| 0 <= i < after.len() ==> (#[trigger] after[i]).id == i + 1,
{
    assert forall|i: int| 0 <= i < after.len() implies (#[trigger] after[i]).id == i + 1 by {
        if i < before.len() {
            assert(after.take(before.len() as int)[i] == after[i]);
        }
    }
}

/// The HMAC key block: the key (or its SHA-256 if it is longer than a block),
/// padded with zero bytes to the 64-byte block size.
pub open spec fn hmac_key_block(key: Seq<u8>) -> Seq<u8> {
    let k = if key.len() > 64 {
        sha256_spec(key)
    } else {
        key
    };
    k + Seq::new((64 - k.len()) as nat, |i: int| 0u8)
}

/// Each byte XOR-ed with `pad`.
pub open spec fn xor_pad(k: Seq<u8>, pad: u8) -> Seq<u8> {
    k.map_values(|b: u8| b ^ pad)
}

/// HMAC-SHA256 (RFC 2104) of `msg` under `key`.
pub open spec fn hmac_sha256_spec(key: Seq<u8>, msg: Seq<u8>) -> Seq<u8> {
    let kb = hmac_key_block(key);
    sha256_spec(xor_pad(kb, 0x5c) + sha256_spec(xor_pad(kb, 0x36) + msg))
}

/// The `X-Hub-Signature-256` value GitHub sends for a body: `sha256=` and the
/// lower-case hex HMAC-SHA256 of the body under the webhook secret.
pub open spec fn github_signature(secret: Seq<char>, body: Seq<u8>) -> Seq<char> {
    "sha256="@ + hex_spec(hmac_sha256_spec(vstd::utf8::encode_utf8(secret), body))
}

fn xor_bytes(k: &Vec<u8>, pad: u8) -> (res: Vec<u8>)
    ensures
        res@ == xor_pad(k@, pad),
{
    let mut out: Vec<u8> = Vec::new();
    let mut i: usize = 0;
    while i < k.len()
        invariant
            i <= k@.len(),
            out@ == xor_pad(k@.take(i as int), pad),
        decreases k@.len() - i,
    {
        out.push(k[i] ^ pad);
        proof {
            assert(out@ =~= xor_pad(k@.take(i + 1), pad));
        }
        i += 1;
    }
    proof {
        assert(k@.take(k@.len() as int) =~= k@);
    }
    out
}

fn concat(a: &Vec<u8>, b: &[u8]) -> (res: Vec<u8>)
    ensures
        res@ == a@ + b@,
{
    let mut out: Vec<u8> = Vec::new();
    let mut i: usize = 0;
    while i < a.len()
        invariant
            i <= a@.len(),
            out@ == a@.take(i as int),
        decreases a@.len() - i,
    {
        out.push(a[i]);
        proof {
            assert(out@ =~= a@.take(i + 1));
        }
        i += 1;
    }
    let mut j: usize = 0;
    proof {
        assert(a@.take(a@.len() as int) =~= a@);
        assert(out@ =~= a@ + b@.take(0));
    }
    while j < b.len()
        invariant
            j <= b@.len(),
            out@ == a@ + b@.take(j as int),
        decreases b@.len() - j,
    {
        out.push(b[j]);
        proof {
            assert(out@ =~= a@ + b@.take(j + 1));
        }
        j += 1;
    }
    proof {
        assert(b@.take(b@.len() as int) =~= b@);
    }
    out
}

/// HMAC-SHA256 (RFC 2104) of `msg` under `key`.
pub fn hmac_sha256(key: &[u8], msg: &[u8]) -> (res: Vec<u8>)
    ensures
        res@ == hmac_sha256_spec(key@, msg@),
{
    let mut kb: Vec<u8> = if key.len() > 64 {
        sha256(key)
    } else {
        let empty: Vec<u8> = Vec::new();
        concat(&empty, key)
    };
    let ghost k0 = kb@;
    proof {
        assert(k0 == if key@.len() > 64 {
            sha256_spec(key@)
        } else {
            key@
        });
    }
    while kb.len() < 64
        invariant
            k0.len() <= kb@.len() <= 64,
            kb@ == k0 + Seq::new((kb@.len() - k0.len()) as nat, |i: int| 0u8),
        decreases 64 - kb@.len(),
    {
        kb.push(0u8);
        proof {
            assert(kb@ =~= k0 + Seq::new((kb@.len() - k0.len()) as nat, |i: int| 0u8));
        }
    }
    proof {
        assert(kb@ =~= hmac_key_block(key@));
    }
    let ipad = xor_bytes(&kb, 0x36);
    let inner_input = concat(&ipad, msg);
    let inner = sha256(inner_input.as_slice());
    let opad = xor_bytes(&kb, 0x5c);
    let outer_input = concat(&opad, inner.as_slice());
    sha256(outer_input.as_slice())
}

/// Whether `signature` is GitHub's `X-Hub-Signature-256` of `body` under `secret`.
pub fn verify_github_signature(secret: &str, body: &[u8], signature: &str) -> (res: bool)
    ensures
        res == (signature@ == github_signature(secret@, body@)),
{
    let mac = hmac_sha256(secret.as_bytes(), body);
    let mut expected = String::new();
    push_str(&mut expected, "sha256=");
    let hex = hex_lower(mac.as_slice());
    push_str(&mut expected, hex.as_str());
    proof {
        assert(expected@ =~= github_signature(secret@, body@));
    }
    str_equal(signature, expected.as_str())
}

} // verus!

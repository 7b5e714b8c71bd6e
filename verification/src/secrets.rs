//! Secrets: loading them from the environment, masking their values in logs,
//! spotting them hard-coded in commands, and handing them to containers.
use vstd::prelude::*;

use crate::strmap::{keys_distinct, lemma_get_after_insert, lemma_insert_map_values, map_get, map_insert, text_entries, Entries, StrMap};
use crate::text::{
    all_of, contains, contains_spec, lacks, lemma_replace_absent, lemma_replace_keeps_absent, lemma_replace_removes, lower,
    occurs_at, push_str, replace, replace_spec, starts_with,
    strip_prefix_all, to_lowercase, to_uppercase, trim_start_matches, upper,
};

verus! {

/// The prefix of the environment variables that hold secrets.
pub open spec fn secret_prefix() -> Seq<char> {
    "RUSTPIPE_SECRET_"@
}

/// `text` with the first `m` secret values masked in turn; empty values are skipped.
pub open spec fn mask_upto(text: Seq<char>, e: Entries<String>, m: int) -> Seq<char>
    decreases m,
{
    if m <= 0 {
        text
    } else {
        let prev = mask_upto(text, e, m - 1);
        let val = e[m - 1].1@;
        if val.len() == 0 {
            prev
        } else {
            replace_spec(prev, val, "***"@)
        }
    }
}

/// Replaces every secret value in `text` with `***`, one secret after another.
pub fn mask(text: &str, secrets: &StrMap<String>) -> (res: String)
    ensures
        res@ == mask_upto(text@, secrets@, secrets@.len() as int),
{
    let mut out = crate::text::to_string(text);
    let mut i: usize = 0;
    while i < secrets.len()
        invariant
            i <= secrets@.len(),
            out@ == mask_upto(text@, secrets@, i as int),
        decreases secrets@.len() - i,
    {
        let val = secrets.value_at(i);
        if !val.as_str().is_empty() {
            out = replace(out.as_str(), val.as_str(), "***");
        }
        i += 1;
    }
    out
}

/// After the first `m` secrets are masked, none of their non-empty values
/// occurs in the text, when no value among them holds a `*`.
pub proof fn lemma_mask_upto_hides(text: Seq<char>, e: Entries<String>, m: int, k: int)
    requires
        0 <= k < m <= e.len(),
        e[k].1@.len() > 0,
        forall|j: int| 0 <= j < m ==> lacks(#[trigger] e[j].1@, '*'),
    ensures
        !contains_spec(mask_upto(text, e, m), e[k].1@),
    decreases m,
{
    reveal_strlit("***");
    assert(all_of("***"@, '*'));
    let prev = mask_upto(text, e, m - 1);
    let val = e[m - 1].1@;
    assert(lacks(e[m - 1].1@, '*'));
    if k == m - 1 {
        lemma_replace_removes(prev, val, "***"@, '*');
    } else {
        lemma_mask_upto_hides(text, e, m - 1, k);
        assert(lacks(e[k].1@, '*'));
        if val.len() > 0 {
            lemma_replace_keeps_absent(prev, val, "***"@, '*', e[k].1@);
        }
    }
}

/// Law: masking hides every secret. After `mask`, no non-empty secret value
/// occurs in the text, provided no secret value holds a `*` (the mask's own
/// character).
pub proof fn lemma_mask_hides_secrets(text: Seq<char>, e: Entries<String>, k: int)
    requires
        0 <= k < e.len(),
        e[k].1@.len() > 0,
        forall|j: int| 0 <= j < e.len() ==> lacks(#[trigger] e[j].1@, '*'),
    ensures
        !contains_spec(mask_upto(text, e, e.len() as int), e[k].1@),
{
    lemma_mask_upto_hides(text, e, e.len() as int, k);
}

/// Masking an already masked text with the first `m` secrets leaves it as it is.
proof fn lemma_mask_keeps_masked(text: Seq<char>, e: Entries<String>, m: int)
    requires
        0 <= m <= e.len(),
        forall|j: int| 0 <= j < e.len() ==> lacks(#[trigger] e[j].1@, '*'),
    ensures
        mask_upto(mask_upto(text, e, e.len() as int), e, m) == mask_upto(text, e, e.len() as int),
    decreases m,
{
    if m > 0 {
        lemma_mask_keeps_masked(text, e, m - 1);
        let val = e[m - 1].1@;
        if val.len() > 0 {
            lemma_mask_hides_secrets(text, e, m - 1);
            lemma_replace_absent(mask_upto(text, e, e.len() as int), val, "***"@);
        }
    }
}

/// Law: masking is idempotent. Masking a masked text again changes nothing
/// (when no secret value holds a `*`).
pub proof fn lemma_mask_idempotent(text: Seq<char>, e: Entries<String>)
    requires
        forall|j: int| 0 <= j < e.len() ==> lacks(#[trigger] e[j].1@, '*'),
    ensures
        mask_upto(mask_upto(text, e, e.len() as int), e, e.len() as int) == mask_upto(
            text,
            e,
            e.len() as int,
        ),
{
    lemma_mask_keeps_masked(text, e, e.len() as int);
}

/// The names of the first `m` secrets whose non-empty value occurs in `cmd`.
pub open spec fn hardcoded_upto(cmd: Seq<char>, e: Entries<String>, m: int) -> Seq<Seq<char>>
    decreases m,
{
    if m <= 0 {
        Seq::empty()
    } else {
        let prev = hardcoded_upto(cmd, e, m - 1);
        if e[m - 1].1@.len() > 0 && contains_spec(cmd, e[m - 1].1@) {
            prev.push(e[m - 1].0)
        } else {
            prev
        }
    }
}

/// The names of the secrets whose value appears literally in a step command.
pub fn check_hardcoded(step_cmd: &str, secrets: &StrMap<String>) -> (res: Vec<String>)
    ensures
        keys_distinct(secrets@),
        res@.map_values(|s: String| s@) == hardcoded_upto(
            step_cmd@,
            secrets@,
            secrets@.len() as int,
        ),
{
    let mut res: Vec<String> = Vec::new();
    let mut i: usize = 0;
    while i < secrets.len()
        invariant
            i <= secrets@.len(),
            res@.map_values(|s: String| s@) == hardcoded_upto(step_cmd@, secrets@, i as int),
        decreases secrets@.len() - i,
    {
        let val = secrets.value_at(i);
        if !val.as_str().is_empty() && contains(step_cmd, val.as_str()) {
            let ghost before = res@.map_values(|s: String| s@);
            res.push(secrets.key_at(i).clone());
            proof {
                assert(res@.map_values(|s: String| s@) =~= before.push(secrets@[i as int].0));
            }
        }
        i += 1;
    }
    res
}

/// The first `m` secrets are not found in a text masked with all of them.
proof fn lemma_masked_upto(cmd: Seq<char>, e: Entries<String>, m: int)
    requires
        0 <= m <= e.len(),
        forall|j: int| 0 <= j < e.len() ==> lacks(#[trigger] e[j].1@, '*'),
    ensures
        hardcoded_upto(mask_upto(cmd, e, e.len() as int), e, m) == Seq::<Seq<char>>::empty(),
    decreases m,
{
    if m > 0 {
        lemma_masked_upto(cmd, e, m - 1);
        if e[m - 1].1@.len() > 0 {
            lemma_mask_hides_secrets(cmd, e, m - 1);
        }
    }
}

/// Law: a masked command has nothing hard-coded left in it: checking it
/// against the same secrets names none of them (when no secret value holds a `*`).
pub proof fn lemma_masked_has_no_hardcoded(cmd: Seq<char>, e: Entries<String>)
    requires
        forall|j: int| 0 <= j < e.len() ==> lacks(#[trigger] e[j].1@, '*'),
    ensures
        hardcoded_upto(mask_upto(cmd, e, e.len() as int), e, e.len() as int) == Seq::<
            Seq<char>,
        >::empty(),
{
    lemma_masked_upto(cmd, e, e.len() as int);
}

proof fn lemma_hardcoded_upto_exact(cmd: Seq<char>, e: Entries<String>, m: int)
    requires
        0 <= m <= e.len(),
    ensures
        forall|k: int|
            0 <= k < m && (#[trigger] e[k].1@).len() > 0 && contains_spec(cmd, e[k].1@)
                ==> hardcoded_upto(cmd, e, m).contains(e[k].0),
        forall|x: Seq<char>|
            #[trigger] hardcoded_upto(cmd, e, m).contains(x) ==> exists|k: int|
                0 <= k < m && e[k].0 == x && (#[trigger] e[k].1@).len() > 0 && contains_spec(
                    cmd,
                    e[k].1@,
                ),
    decreases m,
{
    if m > 0 {
        lemma_hardcoded_upto_exact(cmd, e, m - 1);
        let prev = hardcoded_upto(cmd, e, m - 1);
        let cur = hardcoded_upto(cmd, e, m);
        let hit = e[m - 1].1@.len() > 0 && contains_spec(cmd, e[m - 1].1@);
        if hit {
            assert(cur == prev.push(e[m - 1].0));
            assert forall|k: int|
                0 <= k < m && (#[trigger] e[k].1@).len() > 0 && contains_spec(cmd, e[k].1@)
                    implies cur.contains(e[k].0) by {
                if k == m - 1 {
                    assert(cur[prev.len() as int] == e[k].0);
                } else {
                    let x = choose|x: int| 0 <= x < prev.len() && prev[x] == e[k].0;
                    assert(cur[x] == prev[x]);
                }
            }
            assert forall|x: Seq<char>| #[trigger] cur.contains(x) implies exists|k: int|
                0 <= k < m && e[k].0 == x && (#[trigger] e[k].1@).len() > 0 && contains_spec(
                    cmd,
                    e[k].1@,
                ) by {
                let y = choose|y: int| 0 <= y < cur.len() && cur[y] == x;
                if y < prev.len() {
                    assert(prev[y] == cur[y]);
                    assert(prev.contains(x));
                } else {
                    assert(e[m - 1].1@.len() > 0);
                }
            }
        }
    }
}

/// Law: the hard-coded check names exactly the secrets whose value is not
/// empty and occurs in the command: every such secret is named, and every name
/// given is that of such a secret.
pub proof fn lemma_hardcoded_exact(cmd: Seq<char>, e: Entries<String>)
    ensures
        forall|k: int|
            0 <= k < e.len() && (#[trigger] e[k].1@).len() > 0 && contains_spec(cmd, e[k].1@)
                ==> hardcoded_upto(cmd, e, e.len() as int).contains(e[k].0),
        forall|x: Seq<char>|
            #[trigger] hardcoded_upto(cmd, e, e.len() as int).contains(x) ==> exists|k: int|
                0 <= k < e.len() && e[k].0 == x && (#[trigger] e[k].1@).len() > 0 && contains_spec(
                    cmd,
                    e[k].1@,
                ),
{
    lemma_hardcoded_upto_exact(cmd, e, e.len() as int);
}

/// Law: a container gets one environment pair per secret, in order: the
/// secret's name upper-cased after `SECRET_`, and its value.
pub proof fn lemma_env_pairs_exact(e: Entries<String>)
    ensures
        env_pairs_spec(e).len() == e.len(),
        forall|k: int|
            0 <= k < e.len() ==> #[trigger] env_pairs_spec(e)[k] == ("SECRET_"@ + upper(e[k].0), e[k].1@),
{
}

/// The environment pairs for a container: `SECRET_<NAME>` (upper case) and the value.
pub open spec fn env_pairs_spec(e: Entries<String>) -> Seq<(Seq<char>, Seq<char>)> {
    e.map_values(|x: (Seq<char>, String)| ("SECRET_"@ + upper(x.0), x.1@))
}

/// Builds the `(KEY, VALUE)` environment pairs that give a container its secrets.
pub fn env_pairs(secrets: &StrMap<String>) -> (res: Vec<(String, String)>)
    ensures
        res@.map_values(|p: (String, String)| (p.0@, p.1@)) == env_pairs_spec(secrets@),
{
    let mut res: Vec<(String, String)> = Vec::new();
    let mut i: usize = 0;
    while i < secrets.len()
        invariant
            i <= secrets@.len(),
            res@.map_values(|p: (String, String)| (p.0@, p.1@)) == env_pairs_spec(secrets@).take(
                i as int,
            ),
        decreases secrets@.len() - i,
    {
        let mut key = String::new();
        push_str(&mut key, "SECRET_");
        let up = to_uppercase(secrets.key_at(i).as_str());
        push_str(&mut key, up.as_str());
        let val = secrets.value_at(i).clone();
        assert(key@ =~= "SECRET_"@ + upper(secrets@[i as int].0));
        let ghost before = res@.map_values(|p: (String, String)| (p.0@, p.1@));
        res.push((key, val));
        proof {
            let env = env_pairs_spec(secrets@);
            assert(val@ == secrets@[i as int].1@);
            assert(env[i as int] == (key@, val@));
            assert(res@.map_values(|p: (String, String)| (p.0@, p.1@)) =~= before.push(
                (key@, val@),
            ));
            assert(env.take(i + 1) =~= env.take(i as int).push(env[i as int]));
        }
        i += 1;
    }
    proof {
        assert(env_pairs_spec(secrets@).take(secrets@.len() as int) =~= env_pairs_spec(secrets@));
    }
    res
}

/// The secrets among the first `m` environment variables: each variable named
/// `RUSTPIPE_SECRET_<NAME>` gives the secret `<name>` (the prefix stripped as
/// often as it repeats, then lower-cased); a later variable with the same secret
/// name wins.
pub open spec fn secrets_upto(vars: Seq<(Seq<char>, Seq<char>)>, m: int) -> Entries<Seq<char>>
    decreases m,
{
    if m <= 0 {
        Seq::empty()
    } else {
        let prev = secrets_upto(vars, m - 1);
        let (k, v) = vars[m - 1];
        if occurs_at(k, secret_prefix(), 0) {
            map_insert(prev, lower(strip_prefix_all(k, secret_prefix())), v)
        } else {
            prev
        }
    }
}

/// The secret a variable named `k` holds, when it is prefixed: `k` without the
/// prefix (as often as it repeats), lower-cased.
pub open spec fn secret_name(k: Seq<char>) -> Seq<char> {
    lower(strip_prefix_all(k, secret_prefix()))
}

proof fn lemma_secrets_upto_exact(vars: Seq<(Seq<char>, Seq<char>)>, m: int)
    requires
        0 <= m <= vars.len(),
    ensures
        forall|j: int|
            0 <= j < m && occurs_at(#[trigger] vars[j].0, secret_prefix(), 0) && (forall|j2: int|
                j < j2 < m && occurs_at(vars[j2].0, secret_prefix(), 0) ==> secret_name(
                    vars[j2].0,
                ) != secret_name(vars[j].0)) ==> map_get(secrets_upto(vars, m), secret_name(vars[j].0))
                == Some(vars[j].1),
        forall|name: Seq<char>|
            (forall|j: int|
                0 <= j < m && occurs_at(vars[j].0, secret_prefix(), 0) ==> secret_name(
                    #[trigger] vars[j].0,
                ) != name) ==> map_get(secrets_upto(vars, m), name) is None,
    decreases m,
{
    if m > 0 {
        lemma_secrets_upto_exact(vars, m - 1);
        let (k, v) = vars[m - 1];
        let prev = secrets_upto(vars, m - 1);
        if occurs_at(k, secret_prefix(), 0) {
            let n = secret_name(k);
            assert(secrets_upto(vars, m) == map_insert(prev, n, v));
            assert forall|name: Seq<char>|
                #![trigger map_get(secrets_upto(vars, m), name)]
                true implies map_get(secrets_upto(vars, m), name) == if name == n {
                    Some(v)
                } else {
                    map_get(prev, name)
                } by {
                lemma_get_after_insert(prev, n, v, name);
            }
            assert forall|j: int|
                0 <= j < m && occurs_at(#[trigger] vars[j].0, secret_prefix(), 0) && (forall|
                    j2: int,
                |
                    j < j2 < m && occurs_at(vars[j2].0, secret_prefix(), 0) ==> secret_name(
                        vars[j2].0,
                    ) != secret_name(vars[j].0)) implies map_get(
                secrets_upto(vars, m),
                secret_name(vars[j].0),
            ) == Some(vars[j].1) by {
                if j < m - 1 {
                    assert(secret_name(vars[m - 1].0) != secret_name(vars[j].0));
                }
            }
            assert forall|name: Seq<char>|
                (forall|j: int|
                    0 <= j < m && occurs_at(vars[j].0, secret_prefix(), 0) ==> secret_name(
                        #[trigger] vars[j].0,
                    ) != name) implies map_get(secrets_upto(vars, m), name) is None by {
                assert(secret_name(vars[m - 1].0) != name);
            }
        } else {
            assert(secrets_upto(vars, m) == prev);
        }
    }
}

/// Law: every variable named `RUSTPIPE_SECRET_<NAME>` yields the secret
/// `<name>`, with the value of the last such variable for that name; a name no
/// such variable gives is not a secret.
pub proof fn lemma_secrets_from_vars_exact(vars: Seq<(Seq<char>, Seq<char>)>)
    ensures
        forall|j: int|
            0 <= j < vars.len() && occurs_at(#[trigger] vars[j].0, secret_prefix(), 0) && (forall|
                j2: int,
            |
                j < j2 < vars.len() && occurs_at(vars[j2].0, secret_prefix(), 0) ==> secret_name(
                    vars[j2].0,
                ) != secret_name(vars[j].0)) ==> map_get(
                secrets_upto(vars, vars.len() as int),
                secret_name(vars[j].0),
            ) == Some(vars[j].1),
        forall|name: Seq<char>|
            (forall|j: int|
                0 <= j < vars.len() && occurs_at(vars[j].0, secret_prefix(), 0) ==> secret_name(
                    #[trigger] vars[j].0,
                ) != name) ==> map_get(secrets_upto(vars, vars.len() as int), name) is None,
{
    lemma_secrets_upto_exact(vars, vars.len() as int);
}

/// The secrets held by environment variables prefixed with `RUSTPIPE_SECRET_`.
pub fn secrets_from_vars(vars: &Vec<(String, String)>) -> (res: StrMap<String>)
    ensures
        text_entries(res@) == secrets_upto(
            vars@.map_values(|p: (String, String)| (p.0@, p.1@)),
            vars@.len() as int,
        ),
{
    let ghost vv = vars@.map_values(|p: (String, String)| (p.0@, p.1@));
    let mut res: StrMap<String> = StrMap::new();
    let mut i: usize = 0;
    proof {
        assert(text_entries(res@) =~= Seq::<(Seq<char>, Seq<char>)>::empty());
    }
    while i < vars.len()
        invariant
            vv == vars@.map_values(|p: (String, String)| (p.0@, p.1@)),
            i <= vars@.len(),
            text_entries(res@) == secrets_upto(vv, i as int),
        decreases vars@.len() - i,
    {
        let (k, v) = (&vars[i].0, &vars[i].1);
        assert(vv[i as int] == (k@, v@));
        proof {
            reveal_strlit("RUSTPIPE_SECRET_");
        }
        if starts_with(k.as_str(), "RUSTPIPE_SECRET_") {
            let stripped = trim_start_matches(k.as_str(), "RUSTPIPE_SECRET_");
            let name = to_lowercase(stripped.as_str());
            let ghost old_e = res@;
            let value = v.clone();
            proof {
                lemma_insert_map_values(old_e, name@, value, |s: String| s@);
            }
            res.insert(name, value);
        }
        i += 1;
    }
    res
}

} // verus!

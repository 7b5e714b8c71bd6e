//! Artifact caching: a stage's cache key is the SHA-256 of its name, its step
//! commands and the contents of its source files, written in lower-case hex.
use vstd::prelude::*;

use crate::pipeline::model::Stage;
use crate::text::push_char;
use sha2::Digest;

verus! {

/// The SHA-256 digest of `data`.
pub uninterp spec fn sha256_spec(data: Seq<u8>) -> Seq<u8>;

/// `sha2::Sha256::digest`: the 32-byte SHA-256 digest of `data` (FIPS 180-4).
/// The compression function is not restated here; the contract names the
/// result and gives its length.
#[verifier::external_body]
pub(crate) fn sha256(data: &[u8]) -> (res: Vec<u8>)
    ensures
        res@ == sha256_spec(data@),
        res@.len() == 32,
{
    sha2::Sha256::digest(data).to_vec()
}

/// The lower-case hex digit for `d < 16`.
pub open spec fn hex_digit(d: u8) -> char {
    if d < 10 {
        (('0' as u8) + d) as char
    } else {
        (('a' as u8) + (d - 10)) as char
    }
}

/// Each byte as two lower-case hex digits, high nibble first (`{:x}` of a digest).
pub open spec fn hex_spec(data: Seq<u8>) -> Seq<char>
    decreases data.len(),
{
    if data.len() == 0 {
        Seq::empty()
    } else {
        hex_spec(data.drop_last()) + seq![hex_digit(data.last() / 16), hex_digit(data.last() % 16)]
    }
}

fn hex_digit_exec(d: u8) -> (res: char)
    requires
        d < 16,
    ensures
        res == hex_digit(d),
{
    if d < 10 {
        (('0' as u8) + d) as char
    } else {
        (('a' as u8) + (d - 10)) as char
    }
}

/// The bytes as lower-case hex, two digits per byte.
pub fn hex_lower(data: &[u8]) -> (res: String)
    ensures
        res@ == hex_spec(data@),
{
    let mut out = String::new();
    let mut i: usize = 0;
    while i < data.len()
        invariant
            i <= data@.len(),
            out@ == hex_spec(data@.take(i as int)),
        decreases data@.len() - i,
    {
        let b = data[i];
        push_char(&mut out, hex_digit_exec(b / 16));
        push_char(&mut out, hex_digit_exec(b % 16));
        proof {
            let t = data@.take(i + 1);
            assert(t.drop_last() =~= data@.take(i as int));
            assert(t.last() == b);
            assert(out@ =~= hex_spec(t));
        }
        i += 1;
    }
    proof {
        assert(data@.take(data@.len() as int) =~= data@);
    }
    out
}

/// The hex SHA-256 of some bytes (a pipeline file's hash for drift detection).
pub fn content_hash(data: &[u8]) -> (res: String)
    ensures
        res@ == hex_spec(sha256_spec(data@)),
{
    let d = sha256(data);
    hex_lower(d.as_slice())
}

/// The UTF-8 bytes of the strings, one after another.
pub open spec fn str_bytes(parts: Seq<Seq<char>>) -> Seq<u8>
    decreases parts.len(),
{
    if parts.len() == 0 {
        Seq::empty()
    } else {
        str_bytes(parts.drop_last()) + vstd::utf8::encode_utf8(parts.last())
    }
}

/// The byte strings, one after another.
pub open spec fn concat_bytes(parts: Seq<Seq<u8>>) -> Seq<u8>
    decreases parts.len(),
{
    if parts.len() == 0 {
        Seq::empty()
    } else {
        concat_bytes(parts.drop_last()) + parts.last()
    }
}

/// What a stage's cache key hashes: its name, its step commands and the
/// contents of its source files, in that order.
pub open spec fn stage_hash_input(name: Seq<char>, cmds: Seq<Seq<char>>, sources: Seq<Seq<u8>>) -> Seq<
    u8,
> {
    vstd::utf8::encode_utf8(name) + str_bytes(cmds) + concat_bytes(sources)
}

fn append_bytes(out: &mut Vec<u8>, data: &[u8])
    ensures
        final(out)@ == old(out)@ + data@,
{
    let mut i: usize = 0;
    while i < data.len()
        invariant
            i <= data@.len(),
            out@ == old(out)@ + data@.take(i as int),
        decreases data@.len() - i,
    {
        out.push(data[i]);
        proof {
            assert(data@.take(i + 1) =~= data@.take(i as int).push(data@[i as int]));
            assert(out@ =~= old(out)@ + data@.take(i + 1));
        }
        i += 1;
    }
    proof {
        assert(data@.take(data@.len() as int) =~= data@);
    }
}

/// The cache key of a stage: the lower-case hex SHA-256 of its name, its step
/// commands and the contents of its source files (files that could not be read
/// are left out by the caller).
pub fn stage_hash(stage_name: &str, step_cmds: &[&str], sources: &[Vec<u8>]) -> (res: String)
    ensures
        res@ == hex_spec(
            sha256_spec(
                stage_hash_input(
                    stage_name@,
                    step_cmds@.map_values(|c: &str| c@),
                    sources@.map_values(|v: Vec<u8>| v@),
                ),
            ),
        ),
{
    let ghost cmds = step_cmds@.map_values(|c: &str| c@);
    let ghost srcs = sources@.map_values(|v: Vec<u8>| v@);
    let mut data: Vec<u8> = Vec::new();
    append_bytes(&mut data, stage_name.as_bytes());
    let ghost head = data@;
    let mut i: usize = 0;
    proof {
        assert(cmds.take(0) =~= Seq::<Seq<char>>::empty());
        assert(data@ =~= head + str_bytes(cmds.take(0)));
    }
    while i < step_cmds.len()
        invariant
            cmds == step_cmds@.map_values(|c: &str| c@),
            i <= step_cmds@.len(),
            data@ == head + str_bytes(cmds.take(i as int)),
        decreases step_cmds@.len() - i,
    {
        append_bytes(&mut data, step_cmds[i].as_bytes());
        proof {
            let t = cmds.take(i + 1);
            assert(t.drop_last() =~= cmds.take(i as int));
            assert(t.last() == step_cmds@[i as int]@);
            assert(data@ =~= head + str_bytes(t));
        }
        i += 1;
    }
    proof {
        assert(cmds.take(step_cmds@.len() as int) =~= cmds);
    }
    let ghost mid = data@;
    let mut j: usize = 0;
    proof {
        assert(srcs.take(0) =~= Seq::<Seq<u8>>::empty());
        assert(data@ =~= mid + concat_bytes(srcs.take(0)));
    }
    while j < sources.len()
        invariant
            srcs == sources@.map_values(|v: Vec<u8>| v@),
            j <= sources@.len(),
            data@ == mid + concat_bytes(srcs.take(j as int)),
        decreases sources@.len() - j,
    {
        append_bytes(&mut data, sources[j].as_slice());
        proof {
            let t = srcs.take(j + 1);
            assert(t.drop_last() =~= srcs.take(j as int));
            assert(t.last() == sources@[j as int]@);
            assert(data@ =~= mid + concat_bytes(t));
        }
        j += 1;
    }
    proof {
        assert(srcs.take(sources@.len() as int) =~= srcs);
        assert(data@ =~= stage_hash_input(stage_name@, cmds, srcs));
    }
    content_hash(data.as_slice())
}

/// The step commands of a stage as plain values.
pub open spec fn stage_cmds(st: Stage) -> Seq<Seq<char>> {
    st.steps@.map_values(|s: crate::pipeline::model::Step| s.run@)
}

/// The bytes of commands one after another split where the commands do.
proof fn lemma_str_bytes_concat(a: Seq<Seq<char>>, b: Seq<Seq<char>>)
    ensures
        str_bytes(a + b) == str_bytes(a) + str_bytes(b),
    decreases b.len(),
{
    if b.len() == 0 {
        assert(a + b =~= a);
        assert(str_bytes(a) + str_bytes(b) =~= str_bytes(a));
    } else {
        lemma_str_bytes_concat(a, b.drop_last());
        assert((a + b).drop_last() =~= a + b.drop_last());
        assert((a + b).last() == b.last());
        assert(str_bytes(a + b) =~= str_bytes(a) + str_bytes(b));
    }
}

/// Law: the cache key takes in every step's command, in order: one command per
/// step, each the step's `run`.
pub proof fn lemma_cache_key_commands(st: Stage)
    ensures
        stage_cmds(st).len() == st.steps@.len(),
        forall|i: int| 0 <= i < st.steps@.len() ==> #[trigger] stage_cmds(st)[i] == st.steps@[i].run@,
{
}

/// Law: editing the command of any one step (first or not) changes what the
/// stage's cache key hashes, so a stale stage is not taken as cached (short of
/// a SHA-256 collision).
pub proof fn lemma_cache_key_sees_every_command(name: Seq<char>, st1: Stage, st2: Stage, i: int)
    requires
        st1.steps@.len() == st2.steps@.len(),
        0 <= i < st1.steps@.len(),
        forall|j: int|
            0 <= j < st1.steps@.len() && j != i ==> #[trigger] st1.steps@[j].run@ == st2.steps@[j].run@,
        st1.steps@[i].run@ != st2.steps@[i].run@,
    ensures
        stage_hash_input(name, stage_cmds(st1), Seq::empty()) != stage_hash_input(
            name,
            stage_cmds(st2),
            Seq::empty(),
        ),
{
    let c1 = stage_cmds(st1);
    let c2 = stage_cmds(st2);
    let n = c1.len() as int;
    let pre = c1.take(i);
    let post = c1.skip(i + 1);
    let x1 = c1[i];
    let x2 = c2[i];
    assert(c1 =~= pre + seq![x1] + post);
    assert(c2 =~= pre + seq![x2] + post);
    lemma_str_bytes_concat(pre + seq![x1], post);
    lemma_str_bytes_concat(pre, seq![x1]);
    lemma_str_bytes_concat(pre + seq![x2], post);
    lemma_str_bytes_concat(pre, seq![x2]);
    assert(seq![x1].drop_last() =~= Seq::<Seq<char>>::empty());
    assert(seq![x2].drop_last() =~= Seq::<Seq<char>>::empty());
    assert(str_bytes(Seq::<Seq<char>>::empty()) =~= Seq::<u8>::empty());
    assert(seq![x1].last() == x1);
    assert(seq![x2].last() == x2);
    assert(str_bytes(seq![x1]) =~= vstd::utf8::encode_utf8(x1));
    assert(str_bytes(seq![x2]) =~= vstd::utf8::encode_utf8(x2));
    let head = vstd::utf8::encode_utf8(name) + str_bytes(pre);
    let b1 = vstd::utf8::encode_utf8(x1);
    let b2 = vstd::utf8::encode_utf8(x2);
    let tail = str_bytes(post);
    let in1 = stage_hash_input(name, c1, Seq::empty());
    let in2 = stage_hash_input(name, c2, Seq::empty());
    assert(concat_bytes(Seq::<Seq<u8>>::empty()) =~= Seq::<u8>::empty());
    assert(in1 =~= head + b1 + tail);
    assert(in2 =~= head + b2 + tail);
    if in1 == in2 {
        assert(b1.len() == b2.len());
        let l = head.len() as int;
        assert(in1.subrange(l, l + b1.len()) =~= b1);
        assert(in2.subrange(l, l + b2.len()) =~= b2);
        vstd::utf8::encode_utf8_decode_utf8(x1);
        vstd::utf8::encode_utf8_decode_utf8(x2);
        assert(x1 == x2);
    }
}

/// The cache key written after a stage passes: the hash of its name and all of
/// its step commands, with no source files.
pub fn stage_cache_key(stage_name: &str, stage: &Stage) -> (res: String)
    ensures
        res@ == hex_spec(sha256_spec(stage_hash_input(stage_name@, stage_cmds(*stage), Seq::empty()))),
{
    let mut cmds: Vec<&str> = Vec::new();
    let mut i: usize = 0;
    while i < stage.steps.len()
        invariant
            i <= stage.steps@.len(),
            cmds@.len() == i,
            forall|j: int| 0 <= j < i ==> (#[trigger] cmds@[j])@ == stage.steps@[j].run@,
        decreases stage.steps@.len() - i,
    {
        cmds.push(stage.steps[i].run.as_str());
        i += 1;
    }
    let none: Vec<Vec<u8>> = Vec::new();
    let r = stage_hash(stage_name, cmds.as_slice(), none.as_slice());
    proof {
        assert(cmds@.map_values(|c: &str| c@) =~= stage_cmds(*stage));
        assert(none@.map_values(|v: Vec<u8>| v@) =~= Seq::<Seq<u8>>::empty());
    }
    r
}

} // verus!

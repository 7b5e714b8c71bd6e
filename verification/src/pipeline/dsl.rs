//! The `.rustpipe` pipeline DSL.
//!
//! ```text
//! pipeline my-pipeline
//!
//! stage lint
//!   runs-on rust:latest
//!   step "Run clippy"
//!     run cargo clippy -- -D warnings
//!   end
//! end
//!
//! stage test
//!   runs-on rust:latest
//!   needs lint
//!   when branch == "main"
//!   step "Run tests"
//!     run cargo test --all
//!   end
//! end
//! ```
//!
//! The grammar is given below by spec functions over the characters of the input
//! and positions into them; each parsing function returns exactly what its spec
//! function says. A stage or step that does not parse ends the list it is in;
//! text after the last stage is ignored. Only a missing `pipeline <name>` header is
//! an error, reported with the unparsed rest of the input.
use vstd::prelude::*;

use crate::pipeline::model::{Pipeline, Stage, Step};
use crate::strmap::{
    has_key, is_first_key, key_index, lemma_first_key_unique, lemma_key_index, map_insert,
    Entries, StrMap,
};
use crate::text::{
    chars_of, lemma_scan_bounds, push_str, scan, scan_exec, split_whitespace, strip_bounds,
    string_from_range, trim_spec, words_from, CharClass,
};

verus! {

/// A step as plain values: its name and its (trimmed) command.
pub type StepV = (Seq<char>, Seq<char>);

/// A stage as plain values: image, needs, condition and steps.
pub type StageV = (Seq<char>, Option<Seq<Seq<char>>>, Option<Seq<char>>, Seq<StepV>);

/// `tag(t)`: the text `t` at `p`; the position after it.
pub open spec fn tag_at(s: Seq<char>, p: int, t: Seq<char>) -> Option<int> {
    if 0 <= p && p + t.len() <= s.len() && s.subrange(p, p + t.len()) == t {
        Some(p + t.len())
    } else {
        None
    }
}

/// `space1`: one or more spaces or tabs.
pub open spec fn space1_at(s: Seq<char>, p: int) -> Option<int> {
    let q = scan(s, p, CharClass::Space);
    if q > p {
        Some(q)
    } else {
        None
    }
}

/// An identifier: one or more alphanumeric characters or `-`, `_`, `:`, `.`.
pub open spec fn ident_at(s: Seq<char>, p: int) -> Option<int> {
    let q = scan(s, p, CharClass::Ident);
    if q > p {
        Some(q)
    } else {
        None
    }
}

/// `line_ending`: `"\n"` or `"\r\n"`.
pub open spec fn line_ending_at(s: Seq<char>, p: int) -> Option<int> {
    if 0 <= p < s.len() && s[p] == '\n' {
        Some(p + 1)
    } else if 0 <= p && p + 1 < s.len() && s[p] == '\r' && s[p + 1] == '\n' {
        Some(p + 2)
    } else {
        None
    }
}

/// `opt(line_ending)`.
pub open spec fn opt_line_ending(s: Seq<char>, p: int) -> int {
    match line_ending_at(s, p) {
        Some(q) => q,
        None => p,
    }
}

/// `not_line_ending`: the characters up to the end of the line; a `'\r'` that
/// is not followed by `'\n'` is refused.
pub open spec fn not_line_ending_at(s: Seq<char>, p: int) -> Option<int> {
    let q = scan(s, p, CharClass::NotLineEnd);
    if 0 <= q < s.len() && s[q] == '\r' && !(q + 1 < s.len() && s[q + 1] == '\n') {
        None
    } else {
        Some(q)
    }
}

/// The rest of a line and its line ending: the end of the text, and the
/// position after the line ending.
pub open spec fn rest_of_line_at(s: Seq<char>, p: int) -> Option<(int, int)> {
    match not_line_ending_at(s, p) {
        Some(q) => Some((q, opt_line_ending(s, q))),
        None => None,
    }
}

/// A double-quoted string without escapes: the end of its text (which starts
/// at `p + 1`), and the position after the closing quote.
pub open spec fn quoted_at(s: Seq<char>, p: int) -> Option<(int, int)> {
    if 0 <= p < s.len() && s[p] == '"' {
        let q = scan(s, p + 1, CharClass::NotQuote);
        if q < s.len() {
            Some((q, q + 1))
        } else {
            None
        }
    } else {
        None
    }
}

/// A step: `step "<name>"`, `run <command>`, `end`, each after optional white space.
pub open spec fn step_at(s: Seq<char>, p: int) -> Option<(int, StepV)> {
    let a = scan(s, p, CharClass::MultiSpace);
    match tag_at(s, a, "step"@) {
        None => None,
        Some(b) => match space1_at(s, b) {
            None => None,
            Some(c) => match quoted_at(s, c) {
                None => None,
                Some((qe, d)) => {
                    let f = scan(s, opt_line_ending(s, d), CharClass::MultiSpace);
                    match tag_at(s, f, "run"@) {
                        None => None,
                        Some(g) => match space1_at(s, g) {
                            None => None,
                            Some(h) => match rest_of_line_at(s, h) {
                                None => None,
                                Some((re, i)) => {
                                    let j = scan(s, i, CharClass::MultiSpace);
                                    match tag_at(s, j, "end"@) {
                                        None => None,
                                        Some(k) => Some(
                                            (
                                                opt_line_ending(s, k),
                                                (s.subrange(c + 1, qe), trim_spec(s.subrange(h, re))),
                                            ),
                                        ),
                                    }
                                },
                            },
                        },
                    }
                },
            },
        },
    }
}

/// Zero or more steps (`many0`): the position after them, and the steps.
pub open spec fn steps_at(s: Seq<char>, p: int) -> (int, Seq<StepV>)
    decreases s.len() - p,
{
    match step_at(s, p) {
        Some((q, st)) => if p < q <= s.len() {
            let r = steps_at(s, q);
            (r.0, seq![st] + r.1)
        } else {
            (p, Seq::empty())
        },
        None => (p, Seq::empty()),
    }
}

/// `needs <name> <name> ...`: the names are the words of the rest of the line.
pub open spec fn needs_at(s: Seq<char>, p: int) -> Option<(int, Seq<Seq<char>>)> {
    let a = scan(s, p, CharClass::MultiSpace);
    match tag_at(s, a, "needs"@) {
        None => None,
        Some(b) => match space1_at(s, b) {
            None => None,
            Some(c) => match rest_of_line_at(s, c) {
                None => None,
                Some((re, i)) => Some((i, words_from(s.subrange(c, re), 0))),
            },
        },
    }
}

/// `when <condition>`: the trimmed rest of the line.
pub open spec fn when_at(s: Seq<char>, p: int) -> Option<(int, Seq<char>)> {
    let a = scan(s, p, CharClass::MultiSpace);
    match tag_at(s, a, "when"@) {
        None => None,
        Some(b) => match space1_at(s, b) {
            None => None,
            Some(c) => match rest_of_line_at(s, c) {
                None => None,
                Some((re, i)) => Some((i, trim_spec(s.subrange(c, re)))),
            },
        },
    }
}

/// A stage: `stage <name>`, `runs-on <image>`, an optional `needs` line, an
/// optional `when` line, its steps and `end`.
pub open spec fn stage_at(s: Seq<char>, p: int) -> Option<(int, (Seq<char>, StageV))> {
    let a = scan(s, p, CharClass::MultiSpace);
    match tag_at(s, a, "stage"@) {
        None => None,
        Some(b) => match space1_at(s, b) {
            None => None,
            Some(c) => match ident_at(s, c) {
                None => None,
                Some(d) => {
                    let e = scan(s, opt_line_ending(s, d), CharClass::MultiSpace);
                    match tag_at(s, e, "runs-on"@) {
                        None => None,
                        Some(f) => match space1_at(s, f) {
                            None => None,
                            Some(g) => match ident_at(s, g) {
                                None => None,
                                Some(h) => {
                                    let h2 = opt_line_ending(s, h);
                                    let (i1, needs) = match needs_at(s, h2) {
                                        Some((x, ns)) => (x, Some(ns)),
                                        None => (h2, None),
                                    };
                                    let (i2, when) = match when_at(s, i1) {
                                        Some((x, w)) => (x, Some(w)),
                                        None => (i1, None),
                                    };
                                    let (i3, steps) = steps_at(s, i2);
                                    let j = scan(s, i3, CharClass::MultiSpace);
                                    match tag_at(s, j, "end"@) {
                                        None => None,
                                        Some(k) => Some(
                                            (
                                                opt_line_ending(s, k),
                                                (
                                                    s.subrange(c, d),
                                                    (s.subrange(g, h), needs, when, steps),
                                                ),
                                            ),
                                        ),
                                    }
                                },
                            },
                        },
                    }
                },
            },
        },
    }
}

/// Zero or more stages (`many0`): the position after them, and the stages.
pub open spec fn stages_at(s: Seq<char>, p: int) -> (int, Seq<(Seq<char>, StageV)>)
    decreases s.len() - p,
{
    match stage_at(s, p) {
        Some((q, st)) => if p < q <= s.len() {
            let r = stages_at(s, q);
            (r.0, seq![st] + r.1)
        } else {
            (p, Seq::empty())
        },
        None => (p, Seq::empty()),
    }
}

/// Rust's `{:?}` rendering of a string: quoted, with escapes.
pub uninterp spec fn debug_str(s: Seq<char>) -> Seq<char>;

/// `<str as Debug>::fmt`: the string in double quotes, with `\"`, `\\`, `\n`,
/// `\r`, `\t`, `\0` and `\u{..}` escapes for other characters that are not
/// printable. Which characters count as printable comes from Unicode tables and
/// is not restated here; the contract names the result.
#[verifier::external_body]
pub(crate) fn debug_quote(s: &str) -> (res: String)
    ensures
        res@ == debug_str(s@),
{
    format!("{:?}", s)
}

/// How a parse error prints: `Parsing Error: Error { input: "<rest>", code: <kind> }`.
pub open spec fn parse_error_text(rest: Seq<char>, kind: Seq<char>) -> Seq<char> {
    "Parsing Error: Error { input: "@ + debug_str(rest) + ", code: "@ + kind + " }"@
}

/// The whole file: `pipeline <name>` and then the stages; or the error for a
/// missing `pipeline` keyword, missing space, or a `'\r'` in the name line that
/// does not end it.
pub open spec fn dsl_parse(s: Seq<char>) -> Result<(Seq<char>, Seq<(Seq<char>, StageV)>), Seq<char>> {
    let a = scan(s, 0, CharClass::MultiSpace);
    match tag_at(s, a, "pipeline"@) {
        None => Err("Expected 'pipeline': "@ + parse_error_text(s.skip(a), "Tag"@)),
        Some(b) => match space1_at(s, b) {
            None => Err(parse_error_text(s.skip(b), "Space"@)),
            Some(c) => match rest_of_line_at(s, c) {
                None => Err(parse_error_text(s.skip(c), "Tag"@)),
                Some((ne, d)) => Ok((trim_spec(s.subrange(c, ne)), stages_at(s, d).1)),
            },
        },
    }
}

/// The stages keyed by name; a later stage of the same name replaces the earlier
/// one in its place.
pub open spec fn collect_stages(list: Seq<(Seq<char>, StageV)>) -> Entries<StageV>
    decreases list.len(),
{
    if list.len() == 0 {
        Seq::empty()
    } else {
        map_insert(collect_stages(list.drop_last()), list.last().0, list.last().1)
    }
}

/// A step as plain values.
pub open spec fn step_view(st: Step) -> StepV {
    (st.name@, st.run@)
}

/// Names as plain values.
pub open spec fn opt_names(o: Option<Vec<String>>) -> Option<Seq<Seq<char>>> {
    match o {
        Some(v) => Some(v@.map_values(|x: String| x@)),
        None => None,
    }
}

/// An optional string as a plain value.
pub open spec fn opt_text(o: Option<String>) -> Option<Seq<char>> {
    match o {
        Some(x) => Some(x@),
        None => None,
    }
}

/// A stage as plain values.
pub open spec fn stage_view(st: Stage) -> StageV {
    (st.runs_on@, opt_names(st.needs), opt_text(st.when), st.steps@.map_values(|x: Step| step_view(x)))
}

/// The stage entries of a pipeline as plain values.
pub open spec fn stages_view(e: Entries<Stage>) -> Entries<StageV> {
    e.map_values(|x: (Seq<char>, Stage)| (x.0, stage_view(x.1)))
}

/// What the DSL leaves unset in a stage: no timeout, no matrix, no fail-fast,
/// and steps without artifact or retry.
pub open spec fn dsl_defaults(st: Stage) -> bool {
    &&& st.timeout_secs is None
    &&& st.matrix is None
    &&& !st.fail_fast
    &&& forall|i: int|
        0 <= i < st.steps@.len() ==> (#[trigger] st.steps@[i]).artifact is None
            && st.steps@[i].retry is None
}

/// The pipeline the DSL gives for a name and stage list.
pub open spec fn dsl_pipeline(p: Pipeline, name: Seq<char>, list: Seq<(Seq<char>, StageV)>) -> bool {
    &&& p.name@ == name
    &&& p.trigger is None
    &&& p.secrets is None
    &&& p.notify is None
    &&& stages_view(p.stages@) == collect_stages(list)
    &&& forall|i: int| 0 <= i < p.stages@.len() ==> dsl_defaults(#[trigger] p.stages@[i].1)
}

fn tag(v: &Vec<char>, p: usize, t: &str) -> (res: Option<usize>)
    requires
        p <= v.len(),
    ensures
        match res {
            Some(q) => tag_at(v@, p as int, t@) == Some(q as int) && p <= q <= v.len(),
            None => tag_at(v@, p as int, t@) is None,
        },
{
    let tv = chars_of(t);
    if tv.len() > v.len() - p {
        return None;
    }
    let mut i: usize = 0;
    while i < tv.len()
        invariant
            p + tv@.len() <= v.len(),
            tv@ == t@,
            i <= tv@.len(),
            forall|k: int| 0 <= k < i ==> v@[p + k] == tv@[k],
        decreases tv@.len() - i,
    {
        if v[p + i] != tv[i] {
            proof {
                assert(v@.subrange(p as int, p + tv@.len())[i as int] != t@[i as int]);
            }
            return None;
        }
        i += 1;
    }
    proof {
        assert(v@.subrange(p as int, p + tv@.len()) =~= t@);
    }
    Some(p + tv.len())
}

fn space1(v: &Vec<char>, p: usize) -> (res: Option<usize>)
    requires
        p <= v.len(),
    ensures
        match res {
            Some(q) => space1_at(v@, p as int) == Some(q as int) && p <= q <= v.len(),
            None => space1_at(v@, p as int) is None,
        },
{
    let q = scan_exec(v, p, CharClass::Space);
    if q > p {
        Some(q)
    } else {
        None
    }
}

fn ident(v: &Vec<char>, p: usize) -> (res: Option<usize>)
    requires
        p <= v.len(),
    ensures
        match res {
            Some(q) => ident_at(v@, p as int) == Some(q as int) && p <= q <= v.len(),
            None => ident_at(v@, p as int) is None,
        },
{
    let q = scan_exec(v, p, CharClass::Ident);
    if q > p {
        Some(q)
    } else {
        None
    }
}

fn opt_le(v: &Vec<char>, p: usize) -> (res: usize)
    requires
        p <= v.len(),
    ensures
        res == opt_line_ending(v@, p as int),
        p <= res <= v.len(),
{
    if p < v.len() {
        if v[p] == '\n' {
            return p + 1;
        } else if p + 1 < v.len() && v[p] == '\r' && v[p + 1] == '\n' {
            return p + 2;
        }
    }
    p
}

fn rest_of_line(v: &Vec<char>, p: usize) -> (res: Option<(usize, usize)>)
    requires
        p <= v.len(),
    ensures
        match res {
            Some((a, b)) => rest_of_line_at(v@, p as int) == Some((a as int, b as int)) && p <= a
                <= b <= v.len(),
            None => rest_of_line_at(v@, p as int) is None,
        },
{
    let q = scan_exec(v, p, CharClass::NotLineEnd);
    if q < v.len() && v[q] == '\r' && !(q + 1 < v.len() && v[q + 1] == '\n') {
        None
    } else {
        Some((q, opt_le(v, q)))
    }
}

fn quoted(v: &Vec<char>, p: usize) -> (res: Option<(usize, usize)>)
    requires
        p <= v.len(),
    ensures
        match res {
            Some((a, b)) => quoted_at(v@, p as int) == Some((a as int, b as int)) && p < a < b
                <= v.len(),
            None => quoted_at(v@, p as int) is None,
        },
{
    if p < v.len() && v[p] == '"' {
        let q = scan_exec(v, p + 1, CharClass::NotQuote);
        if q < v.len() {
            Some((q, q + 1))
        } else {
            None
        }
    } else {
        None
    }
}

fn trimmed(v: &Vec<char>, lo: usize, hi: usize) -> (res: String)
    requires
        lo <= hi <= v.len(),
    ensures
        res@ == trim_spec(v@.subrange(lo as int, hi as int)),
{
    let (a, b) = strip_bounds(v, lo, hi, None);
    string_from_range(v, a, b)
}

fn parse_step(v: &Vec<char>, p: usize) -> (res: Option<(usize, Step)>)
    requires
        p <= v.len(),
    ensures
        match res {
            Some((q, st)) => {
                &&& step_at(v@, p as int) == Some((q as int, step_view(st)))
                &&& p < q <= v.len()
                &&& st.artifact is None
                &&& st.retry is None
            },
            None => step_at(v@, p as int) is None,
        },
{
    let a = scan_exec(v, p, CharClass::MultiSpace);
    let b = match tag(v, a, "step") {
        Some(b) => b,
        None => return None,
    };
    let c = match space1(v, b) {
        Some(c) => c,
        None => return None,
    };
    let (qe, d) = match quoted(v, c) {
        Some(x) => x,
        None => return None,
    };
    let d2 = opt_le(v, d);
    let f = scan_exec(v, d2, CharClass::MultiSpace);
    let g = match tag(v, f, "run") {
        Some(g) => g,
        None => return None,
    };
    let h = match space1(v, g) {
        Some(h) => h,
        None => return None,
    };
    let (re, i) = match rest_of_line(v, h) {
        Some(x) => x,
        None => return None,
    };
    let j = scan_exec(v, i, CharClass::MultiSpace);
    let k = match tag(v, j, "end") {
        Some(k) => k,
        None => return None,
    };
    let q = opt_le(v, k);
    proof {
        lemma_scan_bounds(v@, p as int, CharClass::MultiSpace);
    }
    let name = string_from_range(v, c + 1, qe);
    let run = trimmed(v, h, re);
    Some((q, Step { name, run, artifact: None, retry: None }))
}

fn parse_steps(v: &Vec<char>, p: usize) -> (res: (usize, Vec<Step>))
    requires
        p <= v.len(),
    ensures
        steps_at(v@, p as int) == (res.0 as int, res.1@.map_values(|x: Step| step_view(x))),
        p <= res.0 <= v.len(),
        forall|i: int|
            0 <= i < res.1@.len() ==> (#[trigger] res.1@[i]).artifact is None && res.1@[i].retry
                is None,
{
    let mut acc: Vec<Step> = Vec::new();
    let mut cur = p;
    loop
        invariant
            p <= cur <= v.len(),
            steps_at(v@, p as int) == (
                steps_at(v@, cur as int).0,
                acc@.map_values(|x: Step| step_view(x)) + steps_at(v@, cur as int).1,
            ),
            forall|i: int|
                0 <= i < acc@.len() ==> (#[trigger] acc@[i]).artifact is None && acc@[i].retry
                    is None,
        ensures
            steps_at(v@, p as int) == (cur as int, acc@.map_values(|x: Step| step_view(x))),
            cur <= v.len(),
            forall|i: int|
                0 <= i < acc@.len() ==> (#[trigger] acc@[i]).artifact is None && acc@[i].retry
                    is None,
        decreases v.len() - cur,
    {
        match parse_step(v, cur) {
            None => {
                proof {
                    assert(acc@.map_values(|x: Step| step_view(x)) + Seq::<StepV>::empty()
                        =~= acc@.map_values(|x: Step| step_view(x)));
                }
                break ;
            },
            Some((q, st)) => {
                let ghost before = acc@.map_values(|x: Step| step_view(x));
                let ghost sv = step_view(st);
                acc.push(st);
                proof {
                    assert(acc@.map_values(|x: Step| step_view(x)) =~= before.push(sv));
                    assert(steps_at(v@, cur as int) == (
                        steps_at(v@, q as int).0,
                        seq![sv] + steps_at(v@, q as int).1,
                    ));
                    assert(before + (seq![sv] + steps_at(v@, q as int).1) =~= before.push(sv)
                        + steps_at(v@, q as int).1);
                }
                cur = q;
            },
        }
    }
    (cur, acc)
}

fn parse_needs(v: &Vec<char>, p: usize) -> (res: Option<(usize, Vec<String>)>)
    requires
        p <= v.len(),
    ensures
        match res {
            Some((q, ns)) => needs_at(v@, p as int) == Some(
                (q as int, ns@.map_values(|x: String| x@)),
            ) && p <= q <= v.len(),
            None => needs_at(v@, p as int) is None,
        },
{
    let a = scan_exec(v, p, CharClass::MultiSpace);
    let b = match tag(v, a, "needs") {
        Some(b) => b,
        None => return None,
    };
    let c = match space1(v, b) {
        Some(c) => c,
        None => return None,
    };
    let (re, i) = match rest_of_line(v, c) {
        Some(x) => x,
        None => return None,
    };
    let mut line: Vec<char> = Vec::new();
    let mut k = c;
    while k < re
        invariant
            c <= k <= re <= v.len(),
            line@ == v@.subrange(c as int, k as int),
        decreases re - k,
    {
        line.push(v[k]);
        proof {
            assert(line@ =~= v@.subrange(c as int, k + 1));
        }
        k += 1;
    }
    let names = split_whitespace(&line);
    Some((i, names))
}

fn parse_when(v: &Vec<char>, p: usize) -> (res: Option<(usize, String)>)
    requires
        p <= v.len(),
    ensures
        match res {
            Some((q, w)) => when_at(v@, p as int) == Some((q as int, w@)) && p <= q <= v.len(),
            None => when_at(v@, p as int) is None,
        },
{
    let a = scan_exec(v, p, CharClass::MultiSpace);
    let b = match tag(v, a, "when") {
        Some(b) => b,
        None => return None,
    };
    let c = match space1(v, b) {
        Some(c) => c,
        None => return None,
    };
    let (re, i) = match rest_of_line(v, c) {
        Some(x) => x,
        None => return None,
    };
    Some((i, trimmed(v, c, re)))
}

fn parse_stage(v: &Vec<char>, p: usize) -> (res: Option<(usize, String, Stage)>)
    requires
        p <= v.len(),
    ensures
        match res {
            Some((q, name, st)) => {
                &&& stage_at(v@, p as int) == Some((q as int, (name@, stage_view(st))))
                &&& p < q <= v.len()
                &&& dsl_defaults(st)
            },
            None => stage_at(v@, p as int) is None,
        },
{
    let a = scan_exec(v, p, CharClass::MultiSpace);
    let b = match tag(v, a, "stage") {
        Some(b) => b,
        None => return None,
    };
    let c = match space1(v, b) {
        Some(c) => c,
        None => return None,
    };
    let d = match ident(v, c) {
        Some(d) => d,
        None => return None,
    };
    let d2 = opt_le(v, d);
    let e = scan_exec(v, d2, CharClass::MultiSpace);
    let f = match tag(v, e, "runs-on") {
        Some(f) => f,
        None => return None,
    };
    let g = match space1(v, f) {
        Some(g) => g,
        None => return None,
    };
    let h = match ident(v, g) {
        Some(h) => h,
        None => return None,
    };
    let h2 = opt_le(v, h);
    let (i1, needs) = match parse_needs(v, h2) {
        Some((x, ns)) => (x, Some(ns)),
        None => (h2, None),
    };
    let ghost sn = match needs_at(v@, h2 as int) {
        Some((x, ns)) => (x, Some(ns)),
        None => (h2 as int, None),
    };
    assert(sn == (i1 as int, opt_names(needs)));
    let (i2, when) = match parse_when(v, i1) {
        Some((x, w)) => (x, Some(w)),
        None => (i1, None),
    };
    let ghost sw = match when_at(v@, i1 as int) {
        Some((x, w)) => (x, Some(w)),
        None => (i1 as int, None),
    };
    assert(sw == (i2 as int, opt_text(when)));
    let (i3, steps) = parse_steps(v, i2);
    let j = scan_exec(v, i3, CharClass::MultiSpace);
    let k = match tag(v, j, "end") {
        Some(k) => k,
        None => return None,
    };
    let q = opt_le(v, k);
    proof {
        lemma_scan_bounds(v@, p as int, CharClass::MultiSpace);
    }
    let name = string_from_range(v, c, d);
    assert(stage_at(v@, p as int) == Some(
        (
            q as int,
            (
                v@.subrange(c as int, d as int),
                (
                    v@.subrange(g as int, h as int),
                    opt_names(needs),
                    opt_text(when),
                    steps@.map_values(|x: Step| step_view(x)),
                ),
            ),
        ),
    ));
    let runs_on = string_from_range(v, g, h);
    let stage = Stage {
        runs_on,
        steps,
        needs,
        when,
        timeout_secs: None,
        matrix: None,
        fail_fast: false,
    };
    Some((q, name, stage))
}

/// Inserting into entries commutes with viewing the stages.
pub proof fn lemma_stages_view_insert(e: Entries<Stage>, k: Seq<char>, st: Stage)
    ensures
        stages_view(map_insert(e, k, st)) == map_insert(stages_view(e), k, stage_view(st)),
{
    let ev = stages_view(e);
    lemma_key_index(e, k);
    lemma_key_index(ev, k);
    let i = key_index(e, k);
    if i >= 0 {
        assert(is_first_key(ev, k, i)) by {
            assert(ev[i].0 == e[i].0);
            assert forall|j: int| 0 <= j < i implies (#[trigger] ev[j]).0 != k by {
                assert(ev[j].0 == e[j].0);
            }
        }
        lemma_first_key_unique(ev, k, i);
        assert(stages_view(map_insert(e, k, st)) =~= map_insert(ev, k, stage_view(st)));
    } else {
        assert(!has_key(ev, k)) by {
            if has_key(ev, k) {
                let j = choose|j: int| 0 <= j < ev.len() && (#[trigger] ev[j]).0 == k;
                assert(e[j].0 == k);
            }
        }
        assert(stages_view(map_insert(e, k, st)) =~= map_insert(ev, k, stage_view(st)));
    }
}

/// Parses a `.rustpipe` DSL text into a pipeline.
pub fn parse_dsl(input: &str) -> (res: Result<Pipeline, String>)
    ensures
        match dsl_parse(input@) {
            Ok((name, list)) => res matches Ok(p) && dsl_pipeline(p, name, list),
            Err(m) => res matches Err(e) && e@ == m,
        },
{
    let v = chars_of(input);
    let a = scan_exec(&v, 0, CharClass::MultiSpace);
    let b = match tag(&v, a, "pipeline") {
        Some(b) => b,
        None => {
            let mut m = String::new();
            push_str(&mut m, "Expected 'pipeline': ");
            push_rest_error(&mut m, &v, a, "Tag");
            return Err(m);
        },
    };
    let c = match space1(&v, b) {
        Some(c) => c,
        None => {
            let mut m = String::new();
            push_rest_error(&mut m, &v, b, "Space");
            return Err(m);
        },
    };
    let (ne, d) = match rest_of_line(&v, c) {
        Some(x) => x,
        None => {
            let mut m = String::new();
            push_rest_error(&mut m, &v, c, "Tag");
            return Err(m);
        },
    };
    let name = trimmed(&v, c, ne);
    // The stages, in the order they are written.
    let mut stages: StrMap<Stage> = StrMap::new();
    let mut cur = d;
    let ghost mut list: Seq<(Seq<char>, StageV)> = Seq::empty();
    loop
        invariant
            d <= cur <= v.len(),
            stages_at(v@, d as int).1 == list + stages_at(v@, cur as int).1,
            stages_view(stages@) == collect_stages(list),
            forall|i: int| 0 <= i < stages@.len() ==> dsl_defaults(#[trigger] stages@[i].1),
        ensures
            stages_at(v@, d as int).1 == list,
            stages_view(stages@) == collect_stages(list),
            forall|i: int| 0 <= i < stages@.len() ==> dsl_defaults(#[trigger] stages@[i].1),
        decreases v.len() - cur,
    {
        match parse_stage(&v, cur) {
            None => {
                proof {
                    assert(list + Seq::<(Seq<char>, StageV)>::empty() =~= list);
                }
                break ;
            },
            Some((q, key, stage)) => {
                let ghost item = (key@, stage_view(stage));
                let ghost old_stages = stages@;
                proof {
                    assert(stages_at(v@, cur as int).1 == seq![item] + stages_at(v@, q as int).1);
                    assert(list + (seq![item] + stages_at(v@, q as int).1) =~= list.push(item)
                        + stages_at(v@, q as int).1);
                    assert(list.push(item).drop_last() =~= list);
                    lemma_stages_view_insert(old_stages, key@, stage);
                    lemma_key_index(old_stages, key@);
                }
                stages.insert(key, stage);
                proof {
                    list = list.push(item);
                    assert forall|i: int| 0 <= i < stages@.len() implies dsl_defaults(
                        #[trigger] stages@[i].1,
                    ) by {
                        if i < old_stages.len() && stages@[i] == old_stages[i] {
                        } else {
                            assert(stages@[i].1 == stage);
                        }
                    }
                }
                cur = q;
            },
        }
    }
    Ok(Pipeline { name, trigger: None, stages, secrets: None, notify: None })
}

/// Appends `Parsing Error: Error { input: "<rest>", code: <kind> }` for the input
/// from `p` on.
fn push_rest_error(m: &mut String, v: &Vec<char>, p: usize, kind: &str)
    requires
        p <= v.len(),
    ensures
        final(m)@ == old(m)@ + parse_error_text(v@.skip(p as int), kind@),
{
    let rest = string_from_range(v, p, v.len());
    let q = debug_quote(rest.as_str());
    push_str(m, "Parsing Error: Error { input: ");
    push_str(m, q.as_str());
    push_str(m, ", code: ");
    push_str(m, kind);
    push_str(m, " }");
    proof {
        assert(v@.subrange(p as int, v@.len() as int) =~= v@.skip(p as int));
        assert(final(m)@ =~= old(m)@ + parse_error_text(v@.skip(p as int), kind@));
    }
}

} // verus!

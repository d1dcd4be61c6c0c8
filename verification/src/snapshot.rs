//! The registry snapshot: the persisted form of the model registry, a
//! single JSON document keyed by model name.
//!
//!     {"models":{<name>:{"name":...,"model_id":...,"pid":...,"started_at":...}}}
//!
//! `to_json` writes this compact form; `from_json` reads exactly it (the
//! codec reads what it writes), refusing a document whose record names
//! collide or whose key disagrees with its record. Parsing what was
//! emitted gives back the registry unchanged: see
//! [`lemma_snapshot_round_trip`].

use vstd::prelude::*;

use crate::json::{
    json_string, lit_at, parse_string_body, parse_u32_at, write_json_string, expect_lit,
    parse_string_body_exec, parse_u32_exec, lemma_lit_at_of_emit, lemma_parse_string_of_emit,
    lemma_parse_u32_of_emit, lemma_parse_string_body_bounds,
};
use crate::model_state::{names_unique, recs_view, ModelState, RunningModel, RunningModelV};
use crate::text::{dec_digits, is_digit_char, str_eq, u32_to_string};

verus! {

// ---------------------------------------------------------------------------
// Emitting
// ---------------------------------------------------------------------------

#[verifier::opaque]
pub open spec fn emit_record(r: RunningModelV) -> Seq<char> {
    "{\"name\":"@ + json_string(r.name) + ",\"model_id\":"@ + json_string(r.model_id)
        + ",\"pid\":"@ + dec_digits(r.pid as int) + ",\"started_at\":"@ + json_string(
        r.started_at,
    ) + "}"@
}

pub open spec fn emit_entry(r: RunningModelV) -> Seq<char> {
    json_string(r.name) + ":"@ + emit_record(r)
}

pub open spec fn emit_entries(v: Seq<RunningModelV>) -> Seq<char>
    decreases v.len(),
{
    if v.len() == 0 {
        Seq::empty()
    } else if v.len() == 1 {
        emit_entry(v[0])
    } else {
        emit_entry(v[0]) + ","@ + emit_entries(v.drop_first())
    }
}

pub open spec fn emit_snapshot(v: Seq<RunningModelV>) -> Seq<char> {
    "{\"models\":{"@ + emit_entries(v) + "}}"@
}

proof fn lemma_emit_entries_push(v: Seq<RunningModelV>, x: RunningModelV)
    ensures
        emit_entries(v.push(x)) == if v.len() == 0 {
            emit_entry(x)
        } else {
            emit_entries(v) + ","@ + emit_entry(x)
        },
    decreases v.len(),
{
    let w = v.push(x);
    if v.len() == 0 {
        assert(w.len() == 1);
        assert(w[0] == x);
    } else {
        lemma_emit_entries_push(v.drop_first(), x);
        assert(w.drop_first() =~= v.drop_first().push(x));
        assert(w[0] == v[0]);
        if v.len() == 1 {
            assert(v.drop_first().len() == 0);
            assert(emit_entries(w) == emit_entry(v[0]) + ","@ + emit_entry(x));
        } else {
            assert(emit_entry(v[0]) + ","@ + (emit_entries(v.drop_first()) + ","@ + emit_entry(
                x,
            )) =~= (emit_entry(v[0]) + ","@ + emit_entries(v.drop_first())) + ","@ + emit_entry(
                x,
            ));
        }
    }
}

fn write_record(out: &mut String, r: &RunningModel)
    ensures
        final(out)@ == old(out)@ + emit_record(r@),
{
    out.append("{\"name\":");
    write_json_string(out, r.name.as_str());
    out.append(",\"model_id\":");
    write_json_string(out, r.model_id.as_str());
    out.append(",\"pid\":");
    let ds = u32_to_string(r.pid);
    out.append(ds.as_str());
    out.append(",\"started_at\":");
    write_json_string(out, r.started_at.as_str());
    out.append("}");
    proof {
        reveal(emit_record);
        assert(final(out)@ =~= old(out)@ + emit_record(r@));
    }
}

/// Writes the registry as its snapshot document.
pub fn to_json(state: &ModelState) -> (r: String)
    ensures
        r@ == emit_snapshot(state@),
{
    let ghost v = state@;
    let recs = state.list_models();
    let mut out = String::new();
    out.append("{\"models\":{");
    let n = recs.len();
    let mut k: usize = 0;
    while k < n
        invariant
            0 <= k <= n,
            n == recs.len(),
            recs_view(recs@) == v,
            out@ == "{\"models\":{"@ + emit_entries(v.take(k as int)),
        decreases n - k,
    {
        proof {
            assert(v.take(k + 1 as int) =~= v.take(k as int).push(v[k as int]));
            lemma_emit_entries_push(v.take(k as int), v[k as int]);
            assert(recs@[k as int]@ == v[k as int]);
        }
        if k > 0 {
            out.append(",");
        }
        write_json_string(&mut out, recs[k].name.as_str());
        out.append(":");
        write_record(&mut out, &recs[k]);
        proof {
            assert(out@ =~= "{\"models\":{"@ + emit_entries(v.take(k + 1 as int)));
        }
        k = k + 1;
    }
    out.append("}}");
    proof {
        assert(v.take(n as int) =~= v);
        assert(out@ =~= emit_snapshot(v));
    }
    out
}

// ---------------------------------------------------------------------------
// Parsing
// ---------------------------------------------------------------------------

/// A snapshot document the codec refuses.
#[derive(Clone, Copy, Debug, PartialEq, Eq, Structural)]
pub enum SnapshotError {
    Malformed,
}

/// The record beginning at `i` (and the position after it): the four
/// fields, in the order the emitter writes them.
#[verifier::opaque]
pub open spec fn parse_record_at(s: Seq<char>, i: int) -> Option<(RunningModelV, int)>
    recommends
        0 <= i <= s.len(),
{
    if !lit_at(s, i, "{\"name\":"@) {
        None
    } else {
        let a = i + "{\"name\":"@.len();
        if !(a < s.len() && s[a] == '"') {
            None
        } else {
            match parse_string_body(s, a + 1) {
                None => None,
                Some(nm) => {
                    if !lit_at(s, nm.1, ",\"model_id\":"@) {
                        None
                    } else {
                        let b = nm.1 + ",\"model_id\":"@.len();
                        if !(b < s.len() && s[b] == '"') {
                            None
                        } else {
                            match parse_string_body(s, b + 1) {
                                None => None,
                                Some(mid) => {
                                    if !lit_at(s, mid.1, ",\"pid\":"@) {
                                        None
                                    } else {
                                        let c = mid.1 + ",\"pid\":"@.len();
                                        match parse_u32_at(s, c) {
                                            None => None,
                                            Some(pid) => {
                                                if !lit_at(s, pid.1, ",\"started_at\":"@) {
                                                    None
                                                } else {
                                                    let d = pid.1 + ",\"started_at\":"@.len();
                                                    if !(d < s.len() && s[d] == '"') {
                                                        None
                                                    } else {
                                                        match parse_string_body(s, d + 1) {
                                                            None => None,
                                                            Some(st) => {
                                                                if !lit_at(s, st.1, "}"@) {
                                                                    None
                                                                } else {
                                                                    Some(
                                                                        (
                                                                            RunningModelV {
                                                                                name: nm.0,
                                                                                model_id: mid.0,
                                                                                pid: pid.0,
                                                                                started_at: st.0,
                                                                            },
                                                                            st.1 + 1,
                                                                        ),
                                                                    )
                                                                }
                                                            },
                                                        }
                                                    }
                                                }
                                            },
                                        }
                                    }
                                },
                            }
                        }
                    }
                }
            }
        }
    }
}

pub proof fn lemma_parse_record_at_bounds(s: Seq<char>, i: int)
    requires
        0 <= i <= s.len(),
    ensures
        parse_record_at(s, i) matches Some(p) ==> i < p.1 <= s.len(),
{
    reveal(parse_record_at);
    reveal_strlit("{\"name\":");
    reveal_strlit(",\"model_id\":");
    reveal_strlit(",\"pid\":");
    reveal_strlit(",\"started_at\":");
    reveal_strlit("}");
    if lit_at(s, i, "{\"name\":"@) {
        let a = i + "{\"name\":"@.len();
        if a < s.len() && s[a] == '"' {
            lemma_parse_string_body_bounds(s, a + 1);
            match parse_string_body(s, a + 1) {
                None => {},
                Some(nm) => {
                    if lit_at(s, nm.1, ",\"model_id\":"@) {
                        let b = nm.1 + ",\"model_id\":"@.len();
                        if b < s.len() && s[b] == '"' {
                            lemma_parse_string_body_bounds(s, b + 1);
                            match parse_string_body(s, b + 1) {
                                None => {},
                                Some(mid) => {
                                    if lit_at(s, mid.1, ",\"pid\":"@) {
                                        let c = mid.1 + ",\"pid\":"@.len();
                                        crate::text::lemma_digits_end_bounds(s, c);
                                        match parse_u32_at(s, c) {
                                            None => {},
                                            Some(pid) => {
                                                if lit_at(s, pid.1, ",\"started_at\":"@) {
                                                    let d = pid.1 + ",\"started_at\":"@.len();
                                                    if d < s.len() && s[d] == '"' {
                                                        lemma_parse_string_body_bounds(s, d + 1);
                                                    }
                                                }
                                            },
                                        }
                                    }
                                },
                            }
                        }
                    }
                },
            }
        }
    }
}

/// One or more `key:record` entries separated by commas, beginning at
/// `i`; the returned position is where the entry list stops (at whatever
/// follows the last record). An entry whose key is not its record's name
/// is refused.
pub open spec fn parse_entries_at(s: Seq<char>, i: int) -> Option<(Seq<RunningModelV>, int)>
    recommends
        0 <= i <= s.len(),
    decreases s.len() - i when 0 <= i <= s.len() via parse_entries_at_decreases
{
    if !(i < s.len() && s[i] == '"') {
        None
    } else {
        match parse_string_body(s, i + 1) {
            None => None,
            Some(key) => {
                if !(key.1 < s.len() && s[key.1] == ':') {
                    None
                } else {
                    match parse_record_at(s, key.1 + 1) {
                        None => None,
                        Some(recp) => {
                            if recp.0.name != key.0 {
                                None
                            } else if recp.1 < s.len() && s[recp.1] == ',' {
                                match parse_entries_at(s, recp.1 + 1) {
                                    None => None,
                                    Some(rp) => Some((seq![recp.0] + rp.0, rp.1)),
                                }
                            } else {
                                Some((seq![recp.0], recp.1))
                            }
                        },
                    }
                }
            },
        }
    }
}

#[via_fn]
proof fn parse_entries_at_decreases(s: Seq<char>, i: int) {
    if i < s.len() && s[i] == '"' {
        lemma_parse_string_body_bounds(s, i + 1);
        match parse_string_body(s, i + 1) {
            None => {},
            Some(key) => {
                if key.1 < s.len() && s[key.1] == ':' {
                    lemma_parse_record_at_bounds(s, key.1 + 1);
                }
            },
        }
    }
}

pub proof fn lemma_parse_entries_at_bounds(s: Seq<char>, i: int)
    requires
        0 <= i <= s.len(),
    ensures
        parse_entries_at(s, i) matches Some(p) ==> i < p.1 <= s.len(),
    decreases s.len() - i,
{
    if i < s.len() && s[i] == '"' {
        lemma_parse_string_body_bounds(s, i + 1);
        match parse_string_body(s, i + 1) {
            None => {},
            Some(key) => {
                if key.1 < s.len() && s[key.1] == ':' {
                    lemma_parse_record_at_bounds(s, key.1 + 1);
                    match parse_record_at(s, key.1 + 1) {
                        None => {},
                        Some(recp) => {
                            if recp.0.name == key.0 && recp.1 < s.len() && s[recp.1] == ',' {
                                lemma_parse_entries_at_bounds(s, recp.1 + 1);
                            }
                        },
                    }
                }
            },
        }
    }
}

/// What parsing a whole snapshot document yields: its record sequence, or
/// nothing when the document is not in the written form, repeats a name,
/// or keys a record under a foreign name.
pub open spec fn parse_snapshot(s: Seq<char>) -> Option<Seq<RunningModelV>> {
    let h = "{\"models\":{"@;
    if !lit_at(s, 0, h) {
        None
    } else {
        let a = h.len() as int;
        if lit_at(s, a, "}}"@) && a + 2 == s.len() {
            Some(Seq::empty())
        } else {
            match parse_entries_at(s, a) {
                None => None,
                Some(p) => {
                    if lit_at(s, p.1, "}}"@) && p.1 + 2 == s.len() {
                        if names_unique(p.0) {
                            Some(p.0)
                        } else {
                            None
                        }
                    } else {
                        None
                    }
                },
            }
        }
    }
}

fn parse_record_exec(s: &str, i: usize) -> (r: Option<(RunningModel, usize)>)
    requires
        i <= s@.len(),
    ensures
        r matches Some(p) ==> parse_record_at(s@, i as int) == Some((p.0@, p.1 as int)) && i
            < p.1 <= s@.len(),
        r is None ==> parse_record_at(s@, i as int) is None,
{
    proof {
        reveal(parse_record_at);
        lemma_parse_record_at_bounds(s@, i as int);
    }
    let n = s.unicode_len();
    if !expect_lit(s, i, "{\"name\":") {
        return None;
    }
    let a = i + "{\"name\":".unicode_len();
    if !(a < n && s.get_char(a) == '"') {
        return None;
    }
    let nm = match parse_string_body_exec(s, a + 1) {
        None => {
            return None;
        },
        Some(p) => p,
    };
    if !expect_lit(s, nm.1, ",\"model_id\":") {
        return None;
    }
    let b = nm.1 + ",\"model_id\":".unicode_len();
    if !(b < n && s.get_char(b) == '"') {
        return None;
    }
    let mid = match parse_string_body_exec(s, b + 1) {
        None => {
            return None;
        },
        Some(p) => p,
    };
    if !expect_lit(s, mid.1, ",\"pid\":") {
        return None;
    }
    let c = mid.1 + ",\"pid\":".unicode_len();
    let pid = match parse_u32_exec(s, c) {
        None => {
            return None;
        },
        Some(p) => p,
    };
    if !expect_lit(s, pid.1, ",\"started_at\":") {
        return None;
    }
    let d = pid.1 + ",\"started_at\":".unicode_len();
    if !(d < n && s.get_char(d) == '"') {
        return None;
    }
    let st = match parse_string_body_exec(s, d + 1) {
        None => {
            return None;
        },
        Some(p) => p,
    };
    if !expect_lit(s, st.1, "}") {
        return None;
    }
    let rec = RunningModel { name: nm.0, model_id: mid.0, pid: pid.0, started_at: st.0 };
    proof {
        reveal_strlit("}");
    }
    Some((rec, st.1 + 1))
}

spec fn prepend_recs(acc: Seq<RunningModelV>, rest: Option<(Seq<RunningModelV>, int)>) -> Option<
    (Seq<RunningModelV>, int),
> {
    match rest {
        None => None,
        Some(p) => Some((acc + p.0, p.1)),
    }
}

/// Reads a snapshot document back into a registry.
///
/// Succeeds exactly when [`parse_snapshot`] accepts the text, and then
/// returns the well-formed registry holding exactly its records.
pub fn from_json(s: &str) -> (r: Result<ModelState, SnapshotError>)
    ensures
        r matches Ok(st) ==> parse_snapshot(s@) == Some(st@) && st.wf(),
        r is Err ==> parse_snapshot(s@) is None,
{
    let n = s.unicode_len();
    if !expect_lit(s, 0, "{\"models\":{") {
        return Err(SnapshotError::Malformed);
    }
    let a = "{\"models\":{".unicode_len();
    proof {
        crate::json::lemma_lit_at_of_emit(Seq::<char>::empty(), "{\"models\":{"@, s@.skip(
            a as int,
        ));
        assert(a <= n) by {
            assert(lit_at(s@, 0, "{\"models\":{"@));
        }
    }
    if expect_lit(s, a, "}}") {
        if n - a == 2 {
            let st = ModelState::default();
            proof {
                assert(parse_snapshot(s@) == Some(Seq::<RunningModelV>::empty()));
            }
            return Ok(st);
        }
    }
    let ghost full = parse_entries_at(s@, a as int);
    if expect_lit(s, a, "}}") && n - a == 2 {
        return Err(SnapshotError::Malformed);
    }
    let mut recs: Vec<RunningModel> = Vec::new();
    let mut i = a;
    loop
        invariant
            a <= i <= n,
            n == s@.len(),
            a == "{\"models\":{"@.len(),
            lit_at(s@, 0, "{\"models\":{"@),
            !(lit_at(s@, a as int, "}}"@) && a + 2 == n as int),
            parse_entries_at(s@, a as int) == prepend_recs(recs_view(recs@), parse_entries_at(
                s@,
                i as int,
            )),
        decreases n - i,
    {
        proof {
            lemma_parse_entries_at_bounds(s@, i as int);
        }
        if !(i < n && s.get_char(i) == '"') {
            return Err(SnapshotError::Malformed);
        }
        let key = match parse_string_body_exec(s, i + 1) {
            None => {
                return Err(SnapshotError::Malformed);
            },
            Some(p) => p,
        };
        if !(key.1 < n && s.get_char(key.1) == ':') {
            return Err(SnapshotError::Malformed);
        }
        let recp = match parse_record_exec(s, key.1 + 1) {
            None => {
                return Err(SnapshotError::Malformed);
            },
            Some(p) => p,
        };
        if !str_eq(recp.0.name.as_str(), key.0.as_str()) {
            return Err(SnapshotError::Malformed);
        }
        let ghost old_recs = recs@;
        let ghost recv = recp.0@;
        let j = recp.1;
        recs.push(recp.0);
        proof {
            assert(recs_view(recs@) =~= recs_view(old_recs) + seq![recv]);
        }
        if j < n && s.get_char(j) == ',' {
            proof {
                assert(parse_entries_at(s@, i as int) == prepend_recs(
                    seq![recv],
                    parse_entries_at(s@, j + 1 as int),
                ));
                match parse_entries_at(s@, j + 1 as int) {
                    None => {},
                    Some(rp) => {
                        assert((recs_view(old_recs) + seq![recv]) + rp.0 =~= recs_view(old_recs)
                            + (seq![recv] + rp.0));
                    },
                }
            }
            i = j + 1;
        } else {
            proof {
                assert(parse_entries_at(s@, i as int) == Some(
                    (seq![recv], j as int),
                ));
                assert(recs_view(old_recs) + seq![recv] =~= recs_view(recs@));
            }
            if !expect_lit(s, j, "}}") {
                return Err(SnapshotError::Malformed);
            }
            if n - j != 2 {
                return Err(SnapshotError::Malformed);
            }
            match crate::model_state::from_records(recs) {
                None => {
                    return Err(SnapshotError::Malformed);
                },
                Some(st) => {
                    return Ok(st);
                },
            }
        }
    }
}

// ---------------------------------------------------------------------------
// The round trip
// ---------------------------------------------------------------------------

/// Parsing the record the emitter wrote yields it back.
#[verifier::rlimit(100)]
#[verifier::spinoff_prover]
proof fn lemma_parse_record_of_emit(pre: Seq<char>, r: RunningModelV, rest: Seq<char>)
    ensures
        ({
            let s = pre + emit_record(r) + rest;
            parse_record_at(s, pre.len() as int) == Some(
                (r, (pre.len() + emit_record(r).len()) as int),
            )
        }),
{
    reveal(parse_record_at);
    reveal(emit_record);
    let s = pre + emit_record(r) + rest;
    let l1 = "{\"name\":"@;
    let l2 = ",\"model_id\":"@;
    let l3 = ",\"pid\":"@;
    let l4 = ",\"started_at\":"@;
    let l5 = "}"@;
    let x8 = l5 + rest;
    let x7 = json_string(r.started_at) + x8;
    let x6 = l4 + x7;
    let x5 = dec_digits(r.pid as int) + x6;
    let x4 = l3 + x5;
    let x3 = json_string(r.model_id) + x4;
    let x2 = l2 + x3;
    let x1 = json_string(r.name) + x2;
    assert(s =~= pre + l1 + x1);
    let p1 = pre + l1;
    let p2 = p1 + json_string(r.name);
    let p3 = p2 + l2;
    let p4 = p3 + json_string(r.model_id);
    let p5 = p4 + l3;
    let p6 = p5 + dec_digits(r.pid as int);
    let p7 = p6 + l4;
    let p8 = p7 + json_string(r.started_at);
    lemma_lit_at_of_emit(pre, l1, x1);
    assert(pre + l1 + x1 =~= p1 + json_string(r.name) + x2);
    lemma_parse_string_of_emit(p1, r.name, x2);
    assert(p1 + json_string(r.name) + x2 =~= p2 + l2 + x3);
    lemma_lit_at_of_emit(p2, l2, x3);
    assert(p2 + l2 + x3 =~= p3 + json_string(r.model_id) + x4);
    lemma_parse_string_of_emit(p3, r.model_id, x4);
    assert(p3 + json_string(r.model_id) + x4 =~= p4 + l3 + x5);
    lemma_lit_at_of_emit(p4, l3, x5);
    assert(p4 + l3 + x5 =~= p5 + dec_digits(r.pid as int) + x6);
    reveal_strlit(",\"started_at\":");
    assert(x6[0] == ',') by {
        assert(x6[0] == l4[0]);
    }
    assert(!is_digit_char(x6[0]));
    lemma_parse_u32_of_emit(p5, r.pid, x6);
    assert(p5 + dec_digits(r.pid as int) + x6 =~= p6 + l4 + x7);
    lemma_lit_at_of_emit(p6, l4, x7);
    assert(p6 + l4 + x7 =~= p7 + json_string(r.started_at) + x8);
    lemma_parse_string_of_emit(p7, r.started_at, x8);
    assert(p7 + json_string(r.started_at) + x8 =~= p8 + l5 + rest);
    lemma_lit_at_of_emit(p8, l5, rest);
    reveal_strlit("}");
    assert(pre.len() + emit_record(r).len() == p8.len() + l5.len());
}

/// Parsing the entry list the emitter wrote, followed by anything that is
/// not a comma, yields the records back.
#[verifier::rlimit(100)]
#[verifier::spinoff_prover]
proof fn lemma_parse_entries_of_emit(pre: Seq<char>, v: Seq<RunningModelV>, rest: Seq<char>)
    requires
        v.len() > 0,
        rest.len() == 0 || rest[0] != ',',
    ensures
        ({
            let s = pre + emit_entries(v) + rest;
            parse_entries_at(s, pre.len() as int) == Some(
                (v, (pre.len() + emit_entries(v).len()) as int),
            )
        }),
    decreases v.len(),
{
    let s = pre + emit_entries(v) + rest;
    let r = v[0];
    reveal_strlit(":");
    reveal_strlit(",");
    if v.len() == 1 {
        assert(emit_entries(v) == emit_entry(r));
        let x2 = emit_record(r) + rest;
        let x1 = ":"@ + x2;
        assert(s =~= pre + json_string(r.name) + x1);
        let p1 = pre + json_string(r.name);
        let p2 = p1 + ":"@;
        let p3 = p2 + emit_record(r);
        lemma_parse_string_of_emit(pre, r.name, x1);
        assert(pre + json_string(r.name) + x1 =~= p1 + ":"@ + x2);
        lemma_lit_at_of_emit(p1, ":"@, x2);
        assert(p1.len() < s.len() && s[p1.len() as int] == ':') by {
            assert(s[p1.len() as int] == x1[0]);
            assert(x1[0] == ":"@[0]);
        }
        assert(p1 + ":"@ + x2 =~= p2 + emit_record(r) + rest);
        lemma_parse_record_of_emit(p2, r, rest);
        let e = p3.len() as int;
        assert(e == pre.len() + emit_entries(v).len());
        if e < s.len() {
            assert(s[e] == rest[0]);
            assert(s[e] != ',');
        }
        assert(seq![r] =~= v);
    } else {
        let tail = v.drop_first();
        assert(emit_entries(v) == emit_entry(r) + ","@ + emit_entries(tail));
        let x4 = emit_entries(tail) + rest;
        let x3 = ","@ + x4;
        let x2 = emit_record(r) + x3;
        let x1 = ":"@ + x2;
        assert(s =~= pre + json_string(r.name) + x1);
        let p1 = pre + json_string(r.name);
        let p2 = p1 + ":"@;
        let p3 = p2 + emit_record(r);
        let p4 = p3 + ","@;
        lemma_parse_string_of_emit(pre, r.name, x1);
        assert(pre + json_string(r.name) + x1 =~= p1 + ":"@ + x2);
        lemma_lit_at_of_emit(p1, ":"@, x2);
        assert(p1.len() < s.len() && s[p1.len() as int] == ':') by {
            assert(s[p1.len() as int] == x1[0]);
            assert(x1[0] == ":"@[0]);
        }
        assert(p1 + ":"@ + x2 =~= p2 + emit_record(r) + x3);
        lemma_parse_record_of_emit(p2, r, x3);
        let e = p3.len() as int;
        assert(e < s.len() && s[e] == ',') by {
            assert(s[e] == x3[0]);
            assert(x3[0] == ","@[0]);
        }
        assert(p2 + emit_record(r) + x3 =~= p4 + emit_entries(tail) + rest);
        lemma_parse_entries_of_emit(p4, tail, rest);
        assert(parse_entries_at(s, p4.len() as int) == Some(
            (tail, (p4.len() + emit_entries(tail).len()) as int),
        ));
        assert(seq![r] + tail =~= v);
        assert(pre.len() + emit_entries(v).len() == p4.len() + emit_entries(tail).len());
    }
}

/// The registry round trip: reading back the snapshot the emitter wrote
/// yields an equal registry, record for record.
pub proof fn lemma_snapshot_round_trip(v: Seq<RunningModelV>)
    requires
        names_unique(v),
    ensures
        parse_snapshot(emit_snapshot(v)) == Some(v),
{
    let h = "{\"models\":{"@;
    let t = "}}"@;
    let s = emit_snapshot(v);
    assert(s =~= Seq::<char>::empty() + h + (emit_entries(v) + t));
    lemma_lit_at_of_emit(Seq::<char>::empty(), h, emit_entries(v) + t);
    let a = h.len() as int;
    reveal_strlit("{\"models\":{");
    reveal_strlit("}}");
    if v.len() == 0 {
        assert(emit_entries(v) == Seq::<char>::empty());
        assert(s =~= h + t + Seq::<char>::empty());
        lemma_lit_at_of_emit(h, t, Seq::<char>::empty());
        assert(lit_at(s, a, t));
        assert(a + 2 == s.len());
        assert(parse_snapshot(s) == Some(Seq::<RunningModelV>::empty()));
        assert(v =~= Seq::<RunningModelV>::empty());
    } else {
        assert(s =~= h + emit_entries(v) + t);
        lemma_parse_entries_of_emit(h, v, t);
        assert(parse_entries_at(s, a) == Some((v, (h.len() + emit_entries(v).len()) as int)));
        let e = (h.len() + emit_entries(v).len()) as int;
        assert(s =~= (h + emit_entries(v)) + t + Seq::<char>::empty());
        lemma_lit_at_of_emit(h + emit_entries(v), t, Seq::<char>::empty());
        assert(lit_at(s, e, t));
        assert(e + 2 == s.len());
        // the head literal cannot also be the closing braces: the first
        // entry starts with a quote
        assert(!(lit_at(s, a, t) && a + 2 == s.len())) by {
            let r = v[0];
            assert(s[a] == emit_entries(v)[0]);
            if v.len() == 1 {
                assert(emit_entries(v)[0] == emit_entry(r)[0]);
            } else {
                assert(emit_entries(v)[0] == emit_entry(r)[0]);
            }
            assert(emit_entry(r)[0] == json_string(r.name)[0]);
            assert(json_string(r.name)[0] == '"');
            assert(t[0] == '}');
            if lit_at(s, a, t) {
                assert(s.subrange(a, a + 2)[0] == t[0]);
                assert(s[a] == '}');
            }
        }
    }
}

} // verus!

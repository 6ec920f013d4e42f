//! The storage text format: a braced record with the task entries and the
//! id counter, written and read by this module alone.
//!
//! The writer produces one canonical text for a list; the reader inverts the
//! writer exactly, and rejects any text whose record would break the list's
//! well-formedness.

use vstd::prelude::*;

use crate::list::{ListModel, TaskModel, TodoElement, TodoList, wf_model};
use crate::num::{enc_nat, is_digit, lemma_enc_nat_digits, lemma_p_num_enc, p_num, push_u32,
    scan_u32};

verus! {

// ---------------------------------------------------------------------------
// The shape of the stored text, as sequences of characters.
// ---------------------------------------------------------------------------

/// What one character of a task text becomes in storage: the quote and the
/// backslash take a leading backslash, every other character stands as it is.
pub open spec fn esc_char(c: char) -> Seq<char> {
    if c == '"' || c == '\\' {
        seq!['\\', c]
    } else {
        seq![c]
    }
}

/// A task text in storage: each character escaped in turn.
pub open spec fn enc_str(t: Seq<char>) -> Seq<char>
    decreases t.len(),
{
    if t.len() == 0 {
        Seq::empty()
    } else {
        esc_char(t[0]) + enc_str(t.skip(1))
    }
}

pub open spec fn enc_bool(b: bool) -> Seq<char> {
    if b {
        "true"@
    } else {
        "false"@
    }
}

/// One task in storage: its id, its escaped text in quotes, its done flag.
pub open spec fn enc_task(t: TaskModel) -> Seq<char> {
    "{\"id\":"@ + enc_nat(t.id as nat) + ",\"text\":\""@ + enc_str(t.text) + "\",\"done\":"@
        + enc_bool(t.done) + "}"@
}

/// The task entries in storage, in display order, separated by commas.
pub open spec fn enc_tasks(ts: Seq<TaskModel>) -> Seq<char>
    decreases ts.len(),
{
    if ts.len() == 0 {
        Seq::empty()
    } else if ts.len() == 1 {
        enc_task(ts[0])
    } else {
        enc_task(ts[0]) + ","@ + enc_tasks(ts.skip(1))
    }
}

/// A whole list in storage: the entries and the counter.
pub open spec fn enc_list(l: ListModel) -> Seq<char> {
    "{\"entries\":["@ + enc_tasks(l.entries) + "],\"index\":"@ + enc_nat(l.index as nat) + "}"@
}

// ---------------------------------------------------------------------------
// Reading the stored text back, as sequences of characters.
// ---------------------------------------------------------------------------

/// Reads a fixed piece of text from the front of `s` and hands back what
/// follows it.
pub open spec fn p_lit(s: Seq<char>, lit: Seq<char>) -> Option<Seq<char>> {
    if lit.len() <= s.len() && s.take(lit.len() as int) == lit {
        Some(s.skip(lit.len() as int))
    } else {
        None
    }
}

/// Reads a quoted text whose opening quote is already consumed: characters
/// up to the next bare quote, a backslash taking the character after it
/// literally.
pub open spec fn p_string(s: Seq<char>) -> Option<(Seq<char>, Seq<char>)>
    decreases s.len(),
{
    if s.len() == 0 {
        None
    } else if s[0] == '"' {
        Some((Seq::empty(), s.skip(1)))
    } else if s[0] == '\\' {
        if s.len() >= 2 {
            match p_string(s.skip(2)) {
                Some(tr) => Some((seq![s[1]] + tr.0, tr.1)),
                None => None,
            }
        } else {
            None
        }
    } else {
        match p_string(s.skip(1)) {
            Some(tr) => Some((seq![s[0]] + tr.0, tr.1)),
            None => None,
        }
    }
}

pub open spec fn p_bool(s: Seq<char>) -> Option<(bool, Seq<char>)> {
    match p_lit(s, "true"@) {
        Some(r) => Some((true, r)),
        None => match p_lit(s, "false"@) {
            Some(r) => Some((false, r)),
            None => None,
        },
    }
}

/// Reads one task record.
pub open spec fn p_task(s: Seq<char>) -> Option<(TaskModel, Seq<char>)> {
    match p_lit(s, "{\"id\":"@) {
        None => None,
        Some(r1) => match p_num(r1) {
            None => None,
            Some(vr) => if vr.0 > u32::MAX {
                None
            } else {
                match p_lit(vr.1, ",\"text\":\""@) {
                    None => None,
                    Some(r2) => match p_string(r2) {
                        None => None,
                        Some(tr) => match p_lit(tr.1, ",\"done\":"@) {
                            None => None,
                            Some(r3) => match p_bool(r3) {
                                None => None,
                                Some(br) => match p_lit(br.1, "}"@) {
                                    None => None,
                                    Some(r4) => Some(
                                        (
                                            TaskModel {
                                                id: vr.0 as u32,
                                                text: tr.0,
                                                done: br.0,
                                            },
                                            r4,
                                        ),
                                    ),
                                },
                            },
                        },
                    },
                }
            },
        },
    }
}

/// Reads the task records up to, and not through, the closing bracket.
pub open spec fn p_tasks(s: Seq<char>) -> Option<(Seq<TaskModel>, Seq<char>)>
    decreases s.len(),
{
    if s.len() > 0 && s[0] == ']' {
        Some((Seq::empty(), s))
    } else {
        match p_task(s) {
            None => None,
            Some(tr) => if tr.1.len() > 0 && tr.1[0] == ',' {
                if tr.1.len() <= s.len() {
                    match p_tasks(tr.1.skip(1)) {
                        None => None,
                        Some(tsr) => Some((seq![tr.0] + tsr.0, tsr.1)),
                    }
                } else {
                    None
                }
            } else {
                Some((seq![tr.0], tr.1))
            },
        }
    }
}

/// Reads a whole stored list; the text must carry exactly one well-formed
/// record and nothing after it.
pub open spec fn p_list(s: Seq<char>) -> Option<ListModel> {
    match p_lit(s, "{\"entries\":["@) {
        None => None,
        Some(r1) => match p_tasks(r1) {
            None => None,
            Some(tsr) => match p_lit(tsr.1, "],\"index\":"@) {
                None => None,
                Some(r2) => match p_num(r2) {
                    None => None,
                    Some(vr) => if vr.0 > u32::MAX {
                        None
                    } else {
                        match p_lit(vr.1, "}"@) {
                            None => None,
                            Some(r3) => if r3.len() == 0 {
                                let m = ListModel { entries: tsr.0, index: vr.0 as u32 };
                                if wf_model(m) {
                                    Some(m)
                                } else {
                                    None
                                }
                            } else {
                                None
                            },
                        }
                    },
                },
            },
        },
    }
}

// ---------------------------------------------------------------------------
// Reading back what the writer wrote.
// ---------------------------------------------------------------------------

proof fn lemma_p_lit(lit: Seq<char>, rest: Seq<char>)
    ensures
        p_lit(lit + rest, lit) == Some(rest),
{
    let s = lit + rest;
    assert(s.take(lit.len() as int) =~= lit);
    assert(s.skip(lit.len() as int) =~= rest);
}

proof fn lemma_p_string_enc(t: Seq<char>, rest: Seq<char>)
    ensures
        p_string(enc_str(t) + seq!['"'] + rest) == Some((t, rest)),
    decreases t.len(),
{
    let s = enc_str(t) + seq!['"'] + rest;
    if t.len() == 0 {
        assert(s =~= seq!['"'] + rest);
        assert(s[0] == '"');
        assert(s.skip(1) =~= rest);
        assert(Seq::<char>::empty() =~= t);
    } else {
        let c = t[0];
        lemma_p_string_enc(t.skip(1), rest);
        let s1 = enc_str(t.skip(1)) + seq!['"'] + rest;
        if c == '"' || c == '\\' {
            assert(esc_char(c) == seq!['\\', c]);
            assert(s[0] == '\\');
            assert(s.len() >= 2);
            assert(s[1] == c);
            assert(s.skip(2) =~= s1);
            assert(seq![s[1]] + t.skip(1) =~= t);
        } else {
            assert(esc_char(c) == seq![c]);
            assert(s[0] == c);
            assert(s.skip(1) =~= s1);
            assert(seq![s[0]] + t.skip(1) =~= t);
        }
    }
}

proof fn lemma_p_bool_enc(b: bool, rest: Seq<char>)
    ensures
        p_bool(enc_bool(b) + rest) == Some((b, rest)),
{
    reveal_strlit("true");
    reveal_strlit("false");
    let s = enc_bool(b) + rest;
    if b {
        lemma_p_lit("true"@, rest);
    } else {
        lemma_p_lit("false"@, rest);
        if "true"@.len() <= s.len() && s.take("true"@.len() as int) == "true"@ {
            assert(s[0] == 'f');
            assert(s.take("true"@.len() as int)[0] == 't');
            assert(false);
        }
    }
}

proof fn lemma_p_task_enc(t: TaskModel, rest: Seq<char>)
    ensures
        p_task(enc_task(t) + rest) == Some((t, rest)),
{
    reveal_strlit("{\"id\":");
    reveal_strlit(",\"text\":\"");
    reveal_strlit("\",\"done\":");
    reveal_strlit(",\"done\":");
    reveal_strlit("}");
    let s = enc_task(t) + rest;
    let a1 = enc_nat(t.id as nat) + ",\"text\":\""@ + enc_str(t.text) + "\",\"done\":"@
        + enc_bool(t.done) + "}"@ + rest;
    assert(s =~= "{\"id\":"@ + a1);
    lemma_p_lit("{\"id\":"@, a1);
    let a2 = ",\"text\":\""@ + enc_str(t.text) + "\",\"done\":"@ + enc_bool(t.done) + "}"@ + rest;
    assert(a1 =~= enc_nat(t.id as nat) + a2);
    assert(a2[0] == ',');
    assert(!is_digit(a2[0]));
    lemma_p_num_enc(t.id as nat, a2);
    let a3 = enc_str(t.text) + "\",\"done\":"@ + enc_bool(t.done) + "}"@ + rest;
    assert(a2 =~= ",\"text\":\""@ + a3);
    lemma_p_lit(",\"text\":\""@, a3);
    let a4 = ",\"done\":"@ + enc_bool(t.done) + "}"@ + rest;
    assert(a3 =~= enc_str(t.text) + seq!['"'] + a4);
    lemma_p_string_enc(t.text, a4);
    let a5 = enc_bool(t.done) + ("}"@ + rest);
    assert(a4 =~= ",\"done\":"@ + a5);
    lemma_p_lit(",\"done\":"@, a5);
    lemma_p_bool_enc(t.done, "}"@ + rest);
    lemma_p_lit("}"@, rest);
    assert(t.id as int <= u32::MAX);
    assert((TaskModel { id: ((t.id as int) as u32), text: t.text, done: t.done }) == t);
    assert(p_task(s) == Some((t, rest)));
}

proof fn lemma_enc_task_head(t: TaskModel)
    ensures
        enc_task(t).len() > 6,
        enc_task(t)[0] == '{',
{
    reveal_strlit("{\"id\":");
    lemma_enc_nat_digits(t.id as nat);
    assert(enc_task(t)[0] == ("{\"id\":"@)[0]);
}

proof fn lemma_p_tasks_enc(ts: Seq<TaskModel>, rest: Seq<char>)
    requires
        rest.len() > 0,
        rest[0] == ']',
    ensures
        p_tasks(enc_tasks(ts) + rest) == Some((ts, rest)),
    decreases ts.len(),
{
    let s = enc_tasks(ts) + rest;
    if ts.len() == 0 {
        assert(s =~= rest);
        assert(Seq::<TaskModel>::empty() =~= ts);
    } else if ts.len() == 1 {
        assert(s =~= enc_task(ts[0]) + rest);
        lemma_p_task_enc(ts[0], rest);
        lemma_enc_task_head(ts[0]);
        assert(s[0] == '{');
        assert(seq![ts[0]] =~= ts);
    } else {
        reveal_strlit(",");
        let tail = ","@ + (enc_tasks(ts.skip(1)) + rest);
        assert(s =~= enc_task(ts[0]) + tail);
        lemma_p_task_enc(ts[0], tail);
        lemma_enc_task_head(ts[0]);
        assert(s[0] == '{');
        assert(tail[0] == ',');
        assert(tail.len() <= s.len());
        assert(tail.skip(1) =~= enc_tasks(ts.skip(1)) + rest);
        lemma_p_tasks_enc(ts.skip(1), rest);
        assert(seq![ts[0]] + ts.skip(1) =~= ts);
    }
}

/// Round trip: reading back the storage text of any well-formed list yields
/// exactly that list, entries and counter alike.
pub proof fn lemma_storage_round_trip(l: ListModel)
    requires
        wf_model(l),
    ensures
        p_list(enc_list(l)) == Some(l),
{
    reveal_strlit("{\"entries\":[");
    reveal_strlit("],\"index\":");
    reveal_strlit("}");
    let s = enc_list(l);
    let a1 = enc_tasks(l.entries) + ("],\"index\":"@ + enc_nat(l.index as nat) + "}"@);
    assert(s =~= "{\"entries\":["@ + a1);
    lemma_p_lit("{\"entries\":["@, a1);
    let r1 = "],\"index\":"@ + enc_nat(l.index as nat) + "}"@;
    assert(a1 =~= enc_tasks(l.entries) + r1);
    assert(r1[0] == ']');
    lemma_p_tasks_enc(l.entries, r1);
    let r2 = enc_nat(l.index as nat) + "}"@;
    assert(r1 =~= "],\"index\":"@ + r2);
    lemma_p_lit("],\"index\":"@, r2);
    assert(("}"@)[0] == '}');
    assert(!is_digit(("}"@)[0]));
    lemma_p_num_enc(l.index as nat, "}"@);
    assert("}"@ =~= "}"@ + Seq::<char>::empty());
    lemma_p_lit("}"@, Seq::<char>::empty());
    assert((ListModel { entries: l.entries, index: ((l.index as int) as u32) }) == l);
    assert(p_list(s) == Some(l));
}

// ---------------------------------------------------------------------------
// The reader.
// ---------------------------------------------------------------------------

/// Compares the text at `from` against a fixed piece and reports the
/// position after it.
fn match_lit(s: &str, from: usize, lit: &str) -> (r: Option<usize>)
    requires
        from <= s@.len(),
    ensures
        match r {
            Some(pos) => {
                &&& from <= pos <= s@.len()
                &&& pos - from == lit@.len()
                &&& p_lit(s@.skip(from as int), lit@) == Some(s@.skip(pos as int))
            },
            None => p_lit(s@.skip(from as int), lit@) is None,
        },
{
    let ghost sub = s@.skip(from as int);
    let slen = s.unicode_len();
    let llen = lit.unicode_len();
    if slen - from < llen {
        proof {
            assert(sub.len() < lit@.len());
        }
        return None;
    }
    let mut i: usize = 0;
    while i < llen
        invariant
            i <= llen,
            from + llen <= slen,
            slen == s@.len(),
            llen == lit@.len(),
            sub == s@.skip(from as int),
            forall|k: int| 0 <= k < i ==> sub[k] == lit@[k],
        decreases llen - i,
    {
        if s.get_char(from + i) != lit.get_char(i) {
            proof {
                assert(sub[i as int] == s@[from + i]);
                if sub.take(llen as int) == lit@ {
                    assert(sub.take(llen as int)[i as int] == lit@[i as int]);
                    assert(false);
                }
            }
            return None;
        }
        proof {
            assert(sub[i as int] == s@[from + i]);
        }
        i = i + 1;
    }
    proof {
        assert(sub.take(llen as int) =~= lit@);
        assert(sub.skip(llen as int) =~= s@.skip((from + llen) as int));
    }
    Some(from + llen)
}

spec fn prepend_string(pre: Seq<char>, o: Option<(Seq<char>, Seq<char>)>) -> Option<
    (Seq<char>, Seq<char>),
> {
    match o {
        Some(tr) => Some((pre + tr.0, tr.1)),
        None => None,
    }
}

proof fn lemma_prepend_string_empty(o: Option<(Seq<char>, Seq<char>)>)
    ensures
        prepend_string(Seq::empty(), o) == o,
{
    if o is Some {
        assert(Seq::<char>::empty() + o->Some_0.0 =~= o->Some_0.0);
    }
}

proof fn lemma_prepend_string_step(pre: Seq<char>, c: char, o: Option<(Seq<char>, Seq<char>)>)
    ensures
        prepend_string(pre, prepend_string(seq![c], o)) == prepend_string(pre.push(c), o),
{
    if o is Some {
        assert(pre + (seq![c] + o->Some_0.0) =~= pre.push(c) + o->Some_0.0);
    }
}

/// Reads a quoted text whose opening quote is already consumed.
fn scan_string(s: &str, from: usize) -> (r: Option<(String, usize)>)
    requires
        from <= s@.len(),
    ensures
        match r {
            Some(tp) => {
                &&& from <= tp.1 <= s@.len()
                &&& p_string(s@.skip(from as int)) == Some((tp.0@, s@.skip(tp.1 as int)))
            },
            None => p_string(s@.skip(from as int)) is None,
        },
{
    let len = s.unicode_len();
    let mut i: usize = from;
    let mut out = String::new();
    proof {
        lemma_prepend_string_empty(p_string(s@.skip(from as int)));
    }
    while i < len
        invariant
            from <= i <= len,
            len == s@.len(),
            p_string(s@.skip(from as int)) == prepend_string(out@, p_string(s@.skip(i as int))),
        decreases len - i,
    {
        let c = s.get_char(i);
        proof {
            assert(s@.skip(i as int)[0] == s@[i as int]);
        }
        if c == '"' {
            proof {
                assert(s@.skip(i as int).skip(1) =~= s@.skip(i + 1));
                assert(out@ + Seq::<char>::empty() =~= out@);
            }
            return Some((out, i + 1));
        } else if c == '\\' {
            if i + 1 >= len {
                proof {
                    let t = s@.skip(i as int);
                    assert(t.len() < 2);
                    assert(p_string(t) is None);
                }
                return None;
            }
            let c2 = s.get_char(i + 1);
            let ghost out0 = out@;
            out.push(c2);
            proof {
                let t = s@.skip(i as int);
                assert(t[1] == s@[i + 1]);
                assert(t.skip(2) =~= s@.skip(i + 2));
                assert(p_string(t) == prepend_string(seq![c2], p_string(s@.skip(i + 2)))) by {
                    if p_string(s@.skip(i + 2)) is Some {
                        assert(seq![t[1]] =~= seq![c2]);
                    }
                };
                lemma_prepend_string_step(out0, c2, p_string(s@.skip(i + 2)));
            }
            i = i + 2;
        } else {
            let ghost out0 = out@;
            out.push(c);
            proof {
                let t = s@.skip(i as int);
                assert(t.skip(1) =~= s@.skip(i + 1));
                assert(p_string(t) == prepend_string(seq![c], p_string(s@.skip(i + 1)))) by {
                    if p_string(s@.skip(i + 1)) is Some {
                        assert(seq![t[0]] =~= seq![c]);
                    }
                };
                lemma_prepend_string_step(out0, c, p_string(s@.skip(i + 1)));
            }
            i = i + 1;
        }
    }
    proof {
        assert(s@.skip(i as int).len() == 0);
        assert(p_string(s@.skip(i as int)) is None);
    }
    None
}

/// Reads a done flag.
fn scan_bool(s: &str, from: usize) -> (r: Option<(bool, usize)>)
    requires
        from <= s@.len(),
    ensures
        match r {
            Some(bp) => {
                &&& from <= bp.1 <= s@.len()
                &&& p_bool(s@.skip(from as int)) == Some((bp.0, s@.skip(bp.1 as int)))
            },
            None => p_bool(s@.skip(from as int)) is None,
        },
{
    match match_lit(s, from, "true") {
        Some(p) => Some((true, p)),
        None => match match_lit(s, from, "false") {
            Some(p) => Some((false, p)),
            None => None,
        },
    }
}

/// Reads one task record.
fn scan_task(s: &str, from: usize) -> (r: Option<(TodoElement, usize)>)
    requires
        from <= s@.len(),
    ensures
        match r {
            Some(ep) => {
                &&& from < ep.1 <= s@.len()
                &&& p_task(s@.skip(from as int)) == Some((ep.0@, s@.skip(ep.1 as int)))
            },
            None => p_task(s@.skip(from as int)) is None,
        },
{
    let ghost sub = s@.skip(from as int);
    let p1 = match match_lit(s, from, "{\"id\":") {
        Some(p) => p,
        None => {
            return None;
        },
    };
    proof {
        reveal_strlit("{\"id\":");
    }
    let (id, p2) = match scan_u32(s, p1) {
        Some(vp) => vp,
        None => {
            return None;
        },
    };
    let p3 = match match_lit(s, p2, ",\"text\":\"") {
        Some(p) => p,
        None => {
            return None;
        },
    };
    let (text, p4) = match scan_string(s, p3) {
        Some(tp) => tp,
        None => {
            return None;
        },
    };
    let p5 = match match_lit(s, p4, ",\"done\":") {
        Some(p) => p,
        None => {
            return None;
        },
    };
    let (done, p6) = match scan_bool(s, p5) {
        Some(bp) => bp,
        None => {
            return None;
        },
    };
    let p7 = match match_lit(s, p6, "}") {
        Some(p) => p,
        None => {
            return None;
        },
    };
    let e = TodoElement::new(id, text, done);
    proof {
        assert(p_task(sub) == Some((e@, s@.skip(p7 as int))));
    }
    Some((e, p7))
}

spec fn prepend_tasks(pre: Seq<TaskModel>, o: Option<(Seq<TaskModel>, Seq<char>)>) -> Option<
    (Seq<TaskModel>, Seq<char>),
> {
    match o {
        Some(tr) => Some((pre + tr.0, tr.1)),
        None => None,
    }
}

/// Reads the task records up to the closing bracket.
fn scan_tasks(s: &str, from: usize) -> (r: Option<(Vec<TodoElement>, usize)>)
    requires
        from <= s@.len(),
    ensures
        match r {
            Some(vp) => {
                &&& from <= vp.1 <= s@.len()
                &&& p_tasks(s@.skip(from as int)) == Some(
                    (vp.0@.map_values(|e: TodoElement| e@), s@.skip(vp.1 as int)),
                )
            },
            None => p_tasks(s@.skip(from as int)) is None,
        },
    decreases s@.len() - from,
{
    let ghost sub = s@.skip(from as int);
    let len = s.unicode_len();
    if from >= len {
        proof {
            assert(sub.len() == 0);
            reveal_strlit("{\"id\":");
            assert(p_lit(sub, "{\"id\":"@) is None);
        }
        return None;
    }
    let c = s.get_char(from);
    proof {
        assert(sub[0] == s@[from as int]);
    }
    if c == ']' {
        let v: Vec<TodoElement> = Vec::new();
        proof {
            assert(v@.map_values(|e: TodoElement| e@) =~= Seq::<TaskModel>::empty());
        }
        return Some((v, from));
    }
    match scan_task(s, from) {
        None => None,
        Some((e, p)) => {
            let more = p < len && {
                let c2 = s.get_char(p);
                c2 == ','
            };
            if more {
                proof {
                    assert(s@.skip(p as int)[0] == s@[p as int]);
                    assert(s@.skip(p as int).len() <= sub.len());
                    assert(s@.skip(p as int).skip(1) =~= s@.skip(p + 1));
                }
                match scan_tasks(s, p + 1) {
                    None => None,
                    Some((mut v, p2)) => {
                        let ghost v0 = v@.map_values(|e: TodoElement| e@);
                        v.insert(0, e);
                        proof {
                            assert(v@.map_values(|e: TodoElement| e@) =~= seq![e@] + v0);
                        }
                        Some((v, p2))
                    },
                }
            } else {
                proof {
                    if p < s@.len() {
                        assert(s@.skip(p as int)[0] == s@[p as int]);
                    }
                    assert(!(s@.skip(p as int).len() > 0 && s@.skip(p as int)[0] == ','));
                }
                let mut v: Vec<TodoElement> = Vec::new();
                v.push(e);
                proof {
                    assert(v@.map_values(|e: TodoElement| e@) =~= seq![e@]);
                }
                Some((v, p))
            }
        },
    }
}

/// Checks that a record read from storage makes a well-formed list.
fn check_wf(entries: &Vec<TodoElement>, index: u32) -> (r: bool)
    ensures
        r == wf_model(ListModel { entries: entries@.map_values(|e: TodoElement| e@), index }),
{
    let ghost m = ListModel { entries: entries@.map_values(|e: TodoElement| e@), index };
    let n = entries.len();
    let mut i: usize = 0;
    while i < n
        invariant
            i <= n,
            n == entries.len(),
            m == (ListModel { entries: entries@.map_values(|e: TodoElement| e@), index }),
            m.entries.len() == n,
            forall|k: int| 0 <= k < i ==> (#[trigger] m.entries[k]).id < index,
            forall|k: int, l: int| 0 <= k < i && k < l < n ==> m.entries[k].id != m.entries[l].id,
        decreases n - i,
    {
        if entries[i].id >= index {
            proof {
                assert(m.entries[i as int].id >= index);
            }
            return false;
        }
        let base = entries[i].id;
        let mut j: usize = i + 1;
        while j < n
            invariant
                i < j <= n,
                n == entries.len(),
                m == (ListModel { entries: entries@.map_values(|e: TodoElement| e@), index }),
                m.entries.len() == n,
                base == m.entries[i as int].id,
                forall|l: int| i < l < j ==> m.entries[l].id != base,
            decreases n - j,
        {
            if entries[j].id == base {
                proof {
                    assert(m.entries[j as int].id == base);
                }
                return false;
            }
            j = j + 1;
        }
        i = i + 1;
    }
    true
}

impl TodoList {
    /// Reads a whole stored list back; reports nothing when the text is not
    /// exactly one well-formed record.
    pub fn from_storage(s: &str) -> (r: Option<TodoList>)
        ensures
            match r {
                Some(l) => p_list(s@) == Some(l@) && wf_model(l@),
                None => p_list(s@) is None,
            },
    {
        proof {
            assert(s@.skip(0) =~= s@);
        }
        let len = s.unicode_len();
        let p1 = match match_lit(s, 0, "{\"entries\":[") {
            Some(p) => p,
            None => {
                return None;
            },
        };
        let (entries, p2) = match scan_tasks(s, p1) {
            Some(vp) => vp,
            None => {
                return None;
            },
        };
        let p3 = match match_lit(s, p2, "],\"index\":") {
            Some(p) => p,
            None => {
                return None;
            },
        };
        let (index, p4) = match scan_u32(s, p3) {
            Some(vp) => vp,
            None => {
                return None;
            },
        };
        let p5 = match match_lit(s, p4, "}") {
            Some(p) => p,
            None => {
                return None;
            },
        };
        if p5 != len {
            proof {
                assert(s@.skip(p5 as int).len() != 0);
            }
            return None;
        }
        if !check_wf(&entries, index) {
            return None;
        }
        let l = TodoList { entries, index };
        proof {
            assert(p_list(s@) == Some(l@));
        }
        Some(l)
    }
}

// ---------------------------------------------------------------------------
// The writer.
// ---------------------------------------------------------------------------

proof fn lemma_enc_str_snoc(t: Seq<char>, c: char)
    ensures
        enc_str(t.push(c)) == enc_str(t) + esc_char(c),
    decreases t.len(),
{
    if t.len() == 0 {
        assert(t.push(c).skip(1) =~= Seq::<char>::empty());
        assert(t.push(c)[0] == c);
        assert(t =~= Seq::<char>::empty());
        assert(enc_str(t.push(c)) == esc_char(c) + enc_str(Seq::<char>::empty()));
        assert(enc_str(t.push(c)) =~= enc_str(t) + esc_char(c));
    } else {
        assert(t.push(c).skip(1) =~= t.skip(1).push(c));
        lemma_enc_str_snoc(t.skip(1), c);
        assert(enc_str(t.push(c)) =~= enc_str(t) + esc_char(c));
    }
}

/// Appends the escaped form of `t` to `out`.
fn push_escaped(out: &mut String, t: &str)
    ensures
        final(out)@ == old(out)@ + enc_str(t@),
{
    let len = t.unicode_len();
    let mut i: usize = 0;
    proof {
        assert(t@.take(0) =~= Seq::<char>::empty());
        assert(out@ =~= old(out)@ + enc_str(t@.take(0)));
    }
    while i < len
        invariant
            i <= len,
            len == t@.len(),
            out@ == old(out)@ + enc_str(t@.take(i as int)),
        decreases len - i,
    {
        let c = t.get_char(i);
        if c == '"' || c == '\\' {
            out.push('\\');
            out.push(c);
        } else {
            out.push(c);
        }
        i = i + 1;
        proof {
            assert(t@.take(i as int).drop_last() =~= t@.take(i as int - 1));
            assert(t@.take(i as int) =~= t@.take(i as int - 1).push(t@[i as int - 1]));
            lemma_enc_str_snoc(t@.take(i as int - 1), t@[i as int - 1]);
            assert(out@ =~= old(out)@ + enc_str(t@.take(i as int)));
        }
    }
    proof {
        assert(t@.take(len as int) =~= t@);
    }
}

/// Appends the storage form of one task to `out`.
fn push_task(out: &mut String, e: &TodoElement)
    ensures
        final(out)@ == old(out)@ + enc_task(e@),
{
    out.append("{\"id\":");
    push_u32(out, e.id);
    out.append(",\"text\":\"");
    push_escaped(out, e.text.as_str());
    out.append("\",\"done\":");
    if e.done {
        out.append("true");
    } else {
        out.append("false");
    }
    out.append("}");
    proof {
        assert(out@ =~= old(out)@ + enc_task(e@));
    }
}

proof fn lemma_enc_tasks_snoc(ts: Seq<TaskModel>, t: TaskModel)
    ensures
        enc_tasks(ts.push(t)) == (if ts.len() == 0 {
            enc_task(t)
        } else {
            enc_tasks(ts) + ","@ + enc_task(t)
        }),
    decreases ts.len(),
{
    if ts.len() == 0 {
        assert(ts.push(t)[0] == t);
        assert(enc_tasks(ts.push(t)) == enc_task(t));
    } else {
        assert(ts.push(t).skip(1) =~= ts.skip(1).push(t));
        lemma_enc_tasks_snoc(ts.skip(1), t);
        if ts.len() == 1 {
            assert(ts.skip(1).len() == 0);
            assert(enc_tasks(ts.push(t)) =~= enc_tasks(ts) + ","@ + enc_task(t));
        } else {
            assert(enc_tasks(ts.push(t)) =~= enc_tasks(ts) + ","@ + enc_task(t));
        }
    }
}

impl TodoList {
    /// Writes the whole list as its storage text.
    pub fn to_storage(&self) -> (r: String)
        ensures
            r@ == enc_list(self@),
    {
        let mut out = String::new();
        out.append("{\"entries\":[");
        let n = self.entries.len();
        let mut i: usize = 0;
        proof {
            assert(self@.entries.take(0) =~= Seq::<TaskModel>::empty());
            assert(out@ =~= "{\"entries\":["@ + enc_tasks(self@.entries.take(0)));
        }
        while i < n
            invariant
                i <= n,
                n == self.entries.len(),
                self@.entries.len() == n,
                out@ == "{\"entries\":["@ + enc_tasks(self@.entries.take(i as int)),
                forall|k: int|
                    0 <= k < n ==> #[trigger] self@.entries[k] == self.entries@[k]@,
            decreases n - i,
        {
            if i > 0 {
                out.append(",");
            }
            push_task(&mut out, &self.entries[i]);
            i = i + 1;
            proof {
                let tsv = self@.entries;
                assert(tsv.take(i as int) =~= tsv.take(i as int - 1).push(tsv[i as int - 1]));
                lemma_enc_tasks_snoc(tsv.take(i as int - 1), tsv[i as int - 1]);
                assert(out@ =~= "{\"entries\":["@ + enc_tasks(tsv.take(i as int)));
            }
        }
        proof {
            assert(self@.entries.take(n as int) =~= self@.entries);
        }
        out.append("],\"index\":");
        push_u32(&mut out, self.index);
        out.append("}");
        proof {
            assert(out@ =~= enc_list(self@));
        }
        out
    }
}

} // verus!

//! The persisted cache record: one JSON document with the three maps
//! `downloads`, `url_mapping` and `symlinks`, written after every index
//! mutation and read back at startup. The encoder emits a canonical form —
//! no whitespace, fields in a fixed order, map entries in index order — and
//! the parser accepts exactly that form, so that what was written is read
//! back unchanged; anything else counts as corrupt and the caller starts
//! with an empty index. The proofs below show the round trip: parsing an
//! encoded index yields the index.

use crate::download::{CacheView, DownloadState, DownloadStatus, DownloadTask, DownloadTaskView};
use crate::foreign::push_char;
use vstd::prelude::*;

verus! {

/// The escape of one character inside a JSON string: quote and backslash are
/// escaped, everything else stands for itself.
pub open spec fn esc_char(c: char) -> Seq<char> {
    if c == '"' || c == '\\' {
        seq!['\\', c]
    } else {
        seq![c]
    }
}

/// The escaped text of a string.
pub open spec fn esc(s: Seq<char>) -> Seq<char>
    decreases s.len(),
{
    if s.len() == 0 {
        Seq::empty()
    } else {
        esc_char(s[0]) + esc(s.skip(1))
    }
}

/// A string as encoded: quoted and escaped.
pub open spec fn enc_str(s: Seq<char>) -> Seq<char> {
    seq!['"'] + esc(s) + seq!['"']
}

/// Parses a string body up to the closing quote; returns the text and the
/// rest of the input.
pub open spec fn p_body(t: Seq<char>) -> Option<(Seq<char>, Seq<char>)>
    decreases t.len(),
{
    if t.len() == 0 {
        None
    } else if t[0] == '"' {
        Some((Seq::empty(), t.skip(1)))
    } else if t[0] == '\\' {
        if t.len() >= 2 && (t[1] == '"' || t[1] == '\\') {
            match p_body(t.skip(2)) {
                Some((v, r)) => Some((seq![t[1]] + v, r)),
                None => None,
            }
        } else {
            None
        }
    } else {
        match p_body(t.skip(1)) {
            Some((v, r)) => Some((seq![t[0]] + v, r)),
            None => None,
        }
    }
}

/// Parses a quoted string.
pub open spec fn p_str(t: Seq<char>) -> Option<(Seq<char>, Seq<char>)> {
    if t.len() >= 1 && t[0] == '"' {
        p_body(t.skip(1))
    } else {
        None
    }
}

pub proof fn lemma_body_consumes(t: Seq<char>)
    ensures
        p_body(t) matches Some(p) ==> p.1.len() < t.len(),
    decreases t.len(),
{
    if t.len() > 0 && t[0] != '"' {
        if t[0] == '\\' {
            if t.len() >= 2 && (t[1] == '"' || t[1] == '\\') {
                lemma_body_consumes(t.skip(2));
            }
        } else {
            lemma_body_consumes(t.skip(1));
        }
    }
}

pub proof fn lemma_str_consumes(t: Seq<char>)
    ensures
        p_str(t) matches Some(p) ==> p.1.len() < t.len(),
{
    if t.len() >= 1 && t[0] == '"' {
        lemma_body_consumes(t.skip(1));
    }
}

/// Escaping one more character appends its escape.
pub proof fn lemma_esc_snoc(s: Seq<char>, c: char)
    ensures
        esc(s.push(c)) == esc(s) + esc_char(c),
    decreases s.len(),
{
    if s.len() == 0 {
        assert(s.push(c)[0] == c);
        assert(s.push(c).skip(1) =~= Seq::<char>::empty());
        assert(esc(Seq::<char>::empty()) == Seq::<char>::empty());
        assert(esc(s.push(c)) == esc_char(c) + Seq::<char>::empty());
        assert(esc_char(c) + Seq::<char>::empty() =~= esc_char(c));
        assert(esc(s) + esc_char(c) =~= esc_char(c));
    } else {
        assert(s.push(c)[0] == s[0]);
        assert(s.push(c).skip(1) =~= s.skip(1).push(c));
        lemma_esc_snoc(s.skip(1), c);
        assert(esc_char(s[0]) + (esc(s.skip(1)) + esc_char(c)) =~= (esc_char(s[0]) + esc(
            s.skip(1),
        )) + esc_char(c));
    }
}

proof fn lemma_body_rt(s: Seq<char>, rest: Seq<char>)
    ensures
        p_body(esc(s) + seq!['"'] + rest) == Some((s, rest)),
    decreases s.len(),
{
    let t = esc(s) + seq!['"'] + rest;
    if s.len() == 0 {
        assert(t[0] == '"');
        assert(t.skip(1) =~= rest);
    } else {
        let c = s[0];
        if c == '"' || c == '\\' {
            assert(t[0] == '\\');
            assert(t[1] == c);
            assert(t.skip(2) =~= esc(s.skip(1)) + seq!['"'] + rest);
            lemma_body_rt(s.skip(1), rest);
            assert(seq![c] + s.skip(1) =~= s);
        } else {
            assert(t[0] == c);
            assert(c != '"' && c != '\\');
            assert(t.skip(1) =~= esc(s.skip(1)) + seq!['"'] + rest);
            lemma_body_rt(s.skip(1), rest);
            assert(seq![c] + s.skip(1) =~= s);
        }
    }
}

/// Round trip for one string: parsing its encoding yields it back.
pub proof fn lemma_str_rt(s: Seq<char>, rest: Seq<char>)
    ensures
        p_str(enc_str(s) + rest) == Some((s, rest)),
{
    let t = enc_str(s) + rest;
    assert(t[0] == '"');
    assert(t.skip(1) =~= esc(s) + seq!['"'] + rest);
    lemma_body_rt(s, rest);
}

/// Consumes an exact literal.
pub open spec fn p_lit(t: Seq<char>, lit: Seq<char>) -> Option<Seq<char>> {
    if t.len() >= lit.len() && t.take(lit.len() as int) == lit {
        Some(t.skip(lit.len() as int))
    } else {
        None
    }
}

/// Round trip for a literal.
pub proof fn lemma_lit_rt(lit: Seq<char>, rest: Seq<char>)
    ensures
        p_lit(lit + rest, lit) == Some(rest),
{
    let t = lit + rest;
    assert(t.take(lit.len() as int) =~= lit);
    assert(t.skip(lit.len() as int) =~= rest);
}

/// Appends the encoding of one string.
pub fn write_str(out: &mut String, s: &str)
    ensures
        final(out)@ == old(out)@ + enc_str(s@),
{
    push_char(out, '"');
    let n = s.unicode_len();
    let mut i: usize = 0;
    while i < n
        invariant
            0 <= i <= n,
            n == s@.len(),
            out@ == old(out)@ + seq!['"'] + esc(s@.take(i as int)),
        decreases n - i,
    {
        let c = s.get_char(i);
        proof {
            assert(s@.take(i + 1) =~= s@.take(i as int).push(s@[i as int]));
            lemma_esc_snoc(s@.take(i as int), s@[i as int]);
        }
        if c == '"' || c == '\\' {
            push_char(out, '\\');
            push_char(out, c);
            proof {
                assert(old(out)@ + seq!['"'] + esc(s@.take(i as int)).push('\\').push(c) =~= old(
                    out,
                )@ + seq!['"'] + esc(s@.take(i + 1)));
            }
        } else {
            push_char(out, c);
            proof {
                assert(old(out)@ + seq!['"'] + esc(s@.take(i as int)).push(c) =~= old(out)@
                    + seq!['"'] + esc(s@.take(i + 1)));
            }
        }
        i = i + 1;
    }
    push_char(out, '"');
    proof {
        assert(s@.take(n as int) =~= s@);
        assert(old(out)@ + seq!['"'] + esc(s@) + seq!['"'] =~= old(out)@ + enc_str(s@));
        assert((old(out)@ + seq!['"'] + esc(s@)).push('"') =~= old(out)@ + seq!['"'] + esc(s@)
            + seq!['"']);
    }
}

/// Parses a string body starting at `i` (just after the opening quote).
fn parse_body(s: &str, i: usize) -> (r: Option<(String, usize)>)
    requires
        i <= s@.len(),
    ensures
        r matches Some(p) ==> i < p.1 <= s@.len() && (p_body(s@.skip(i as int)) matches Some(q)
            && q.0 == p.0@ && q.1 == s@.skip(p.1 as int)),
        r is None ==> p_body(s@.skip(i as int)) is None,
    decreases s@.len() - i,
{
    let n = s.unicode_len();
    if i == n {
        return None;
    }
    let c = s.get_char(i);
    proof {
        assert(s@.skip(i as int)[0] == s@[i as int]);
        assert(s@.skip(i as int).len() == n - i);
    }
    if c == '"' {
        proof {
            assert(s@.skip(i as int).skip(1) =~= s@.skip(i + 1));
        }
        return Some((String::new(), i + 1));
    }
    if c == '\\' {
        if i + 1 == n {
            return None;
        }
        let e = s.get_char(i + 1);
        proof {
            assert(s@.skip(i as int)[1] == s@[i + 1]);
        }
        if e == '"' || e == '\\' {
            proof {
                assert(s@.skip(i as int).skip(2) =~= s@.skip(i + 2));
            }
            match parse_body(s, i + 2) {
                Some((tail, j)) => {
                    let mut v = String::new();
                    push_char(&mut v, e);
                    v.append(tail.as_str());
                    proof {
                        assert(v@ =~= seq![s@[i + 1]] + tail@);
                    }
                    Some((v, j))
                },
                None => None,
            }
        } else {
            None
        }
    } else {
        proof {
            assert(s@.skip(i as int).skip(1) =~= s@.skip(i + 1));
        }
        match parse_body(s, i + 1) {
            Some((tail, j)) => {
                let mut v = String::new();
                push_char(&mut v, c);
                v.append(tail.as_str());
                proof {
                    assert(v@ =~= seq![s@[i as int]] + tail@);
                }
                Some((v, j))
            },
            None => None,
        }
    }
}

/// Parses a quoted string starting at `i`.
fn parse_str(s: &str, i: usize) -> (r: Option<(String, usize)>)
    requires
        i <= s@.len(),
    ensures
        r matches Some(p) ==> i < p.1 <= s@.len() && (p_str(s@.skip(i as int)) matches Some(q)
            && q.0 == p.0@ && q.1 == s@.skip(p.1 as int)),
        r is None ==> p_str(s@.skip(i as int)) is None,
{
    let n = s.unicode_len();
    if i == n {
        return None;
    }
    let c = s.get_char(i);
    proof {
        assert(s@.skip(i as int)[0] == s@[i as int]);
    }
    if c == '"' {
        proof {
            assert(s@.skip(i as int).skip(1) =~= s@.skip(i + 1));
        }
        parse_body(s, i + 1)
    } else {
        None
    }
}

/// Consumes the literal `lit` starting at `i`.
fn eat_lit(s: &str, i: usize, lit: &str) -> (r: Option<usize>)
    requires
        i <= s@.len(),
    ensures
        r matches Some(j) ==> i <= j <= s@.len() && j == i + lit@.len() && p_lit(
            s@.skip(i as int),
            lit@,
        ) == Some(s@.skip(j as int)),
        r is None ==> p_lit(s@.skip(i as int), lit@) is None,
{
    let n = s.unicode_len();
    let m = lit.unicode_len();
    if n - i < m {
        proof {
            assert(s@.skip(i as int).len() < lit@.len());
        }
        return None;
    }
    let mut k: usize = 0;
    while k < m
        invariant
            0 <= k <= m,
            m == lit@.len(),
            i + m <= n,
            n == s@.len(),
            forall|j: int| 0 <= j < k ==> s@.skip(i as int)[j] == lit@[j],
        decreases m - k,
    {
        let a = s.get_char(i + k);
        let b = lit.get_char(k);
        proof {
            assert(s@.skip(i as int)[k as int] == s@[i + k]);
        }
        if a != b {
            proof {
                if s@.skip(i as int).take(m as int) == lit@ {
                    assert(s@.skip(i as int).take(m as int)[k as int] == lit@[k as int]);
                    assert(false);
                }
            }
            return None;
        }
        k = k + 1;
    }
    proof {
        assert(s@.skip(i as int).take(m as int) =~= lit@);
        assert(s@.skip(i as int).skip(m as int) =~= s@.skip(i + m));
    }
    Some(i + m)
}

/// The stored text of a status.
pub open spec fn status_text(st: DownloadStatus) -> Seq<char> {
    match st {
        DownloadStatus::Pending => "pending"@,
        DownloadStatus::Completed => "completed"@,
        DownloadStatus::Failed => "failed"@,
    }
}

/// Parses a status string.
pub open spec fn p_status(t: Seq<char>) -> Option<(DownloadStatus, Seq<char>)> {
    match p_str(t) {
        Some((v, r)) => if v == "pending"@ {
            Some((DownloadStatus::Pending, r))
        } else if v == "completed"@ {
            Some((DownloadStatus::Completed, r))
        } else if v == "failed"@ {
            Some((DownloadStatus::Failed, r))
        } else {
            None
        },
        None => None,
    }
}

pub proof fn lemma_status_rt(st: DownloadStatus, rest: Seq<char>)
    ensures
        p_status(enc_str(status_text(st)) + rest) == Some((st, rest)),
{
    reveal_strlit("pending");
    reveal_strlit("completed");
    reveal_strlit("failed");
    lemma_str_rt(status_text(st), rest);
}

/// A task without its consumer directories, as the `downloads` map stores it.
pub open spec fn strip_dirs(t: DownloadTaskView) -> DownloadTaskView {
    DownloadTaskView { dirs: Seq::empty(), ..t }
}

/// The object stored for one task in the `downloads` map.
pub open spec fn enc_task(t: DownloadTaskView) -> Seq<char> {
    "{\"url\":"@ + enc_str(t.url) + ",\"downloadable_url\":"@ + enc_str(t.downloadable_url)
        + ",\"status\":"@ + enc_str(status_text(t.status)) + ",\"file_id\":"@ + enc_str(t.file_id)
        + "}"@
}

/// Parses one task object; the directories come later from `symlinks`.
pub open spec fn p_task(t: Seq<char>) -> Option<(DownloadTaskView, Seq<char>)> {
    match p_lit(t, "{\"url\":"@) {
        None => None,
        Some(r1) => match p_str(r1) {
            None => None,
            Some((url, r2)) => match p_lit(r2, ",\"downloadable_url\":"@) {
                None => None,
                Some(r3) => match p_str(r3) {
                    None => None,
                    Some((durl, r4)) => match p_lit(r4, ",\"status\":"@) {
                        None => None,
                        Some(r5) => match p_status(r5) {
                            None => None,
                            Some((st, r6)) => match p_lit(r6, ",\"file_id\":"@) {
                                None => None,
                                Some(r7) => match p_str(r7) {
                                    None => None,
                                    Some((fid, r8)) => match p_lit(r8, "}"@) {
                                        None => None,
                                        Some(r9) => Some(
                                            (
                                                DownloadTaskView {
                                                    url: url,
                                                    downloadable_url: durl,
                                                    status: st,
                                                    file_id: fid,
                                                    dirs: Seq::empty(),
                                                },
                                                r9,
                                            ),
                                        ),
                                    },
                                },
                            },
                        },
                    },
                },
            },
        },
    }
}

pub proof fn lemma_task_rt(t: DownloadTaskView, rest: Seq<char>)
    ensures
        p_task(enc_task(t) + rest) == Some((strip_dirs(t), rest)),
{
    let l1 = "{\"url\":"@;
    let l2 = ",\"downloadable_url\":"@;
    let l3 = ",\"status\":"@;
    let l4 = ",\"file_id\":"@;
    let l5 = "}"@;
    let x5 = l5 + rest;
    let x4b = enc_str(t.file_id) + x5;
    let x4 = l4 + x4b;
    let x3b = enc_str(status_text(t.status)) + x4;
    let x3 = l3 + x3b;
    let x2b = enc_str(t.downloadable_url) + x3;
    let x2 = l2 + x2b;
    let x1 = enc_str(t.url) + x2;
    assert(enc_task(t) + rest =~= l1 + x1);
    lemma_lit_rt(l1, x1);
    lemma_str_rt(t.url, x2);
    lemma_lit_rt(l2, x2b);
    lemma_str_rt(t.downloadable_url, x3);
    lemma_lit_rt(l3, x3b);
    lemma_status_rt(t.status, x4);
    lemma_lit_rt(l4, x4b);
    lemma_str_rt(t.file_id, x5);
    lemma_lit_rt(l5, rest);
}

pub proof fn lemma_task_consumes(t: Seq<char>)
    ensures
        p_task(t) matches Some(p) ==> p.1.len() < t.len(),
{
    reveal_strlit("{\"url\":");
    reveal_strlit(",\"downloadable_url\":");
    reveal_strlit(",\"status\":");
    reveal_strlit(",\"file_id\":");
    reveal_strlit("}");
    if p_task(t) is Some {
        let r1 = p_lit(t, "{\"url\":"@)->0;
        lemma_str_consumes(r1);
        let r2 = (p_str(r1)->0).1;
        let r3 = p_lit(r2, ",\"downloadable_url\":"@)->0;
        lemma_str_consumes(r3);
        let r4 = (p_str(r3)->0).1;
        let r5 = p_lit(r4, ",\"status\":"@)->0;
        lemma_str_consumes(r5);
        let r6 = (p_status(r5)->0).1;
        let r7 = p_lit(r6, ",\"file_id\":"@)->0;
        lemma_str_consumes(r7);
        let r8 = (p_str(r7)->0).1;
        let r9 = p_lit(r8, "}"@)->0;
    }
}

/// One `downloads` entry: the file id as the key, then the task object.
/// The key must agree with the object's own `file_id` field.
pub open spec fn enc_down_entry(t: DownloadTaskView) -> Seq<char> {
    enc_str(t.file_id) + ":"@ + enc_task(t)
}

pub open spec fn p_down_entry(t: Seq<char>) -> Option<(DownloadTaskView, Seq<char>)> {
    match p_str(t) {
        None => None,
        Some((key, r1)) => match p_lit(r1, ":"@) {
            None => None,
            Some(r2) => match p_task(r2) {
                None => None,
                Some((tv, r3)) => if key == tv.file_id {
                    Some((tv, r3))
                } else {
                    None
                },
            },
        },
    }
}

pub proof fn lemma_down_entry_consumes(t: Seq<char>)
    ensures
        p_down_entry(t) matches Some(p) ==> p.1.len() < t.len(),
{
    lemma_str_consumes(t);
    if p_str(t) is Some {
        let r1 = (p_str(t)->0).1;
        reveal_strlit(":");
        if p_lit(r1, ":"@) is Some {
            let r2 = p_lit(r1, ":"@)->0;
            lemma_task_consumes(r2);
        }
    }
}

pub proof fn lemma_down_entry_rt(t: DownloadTaskView, rest: Seq<char>)
    ensures
        p_down_entry(enc_down_entry(t) + rest) == Some((strip_dirs(t), rest)),
{
    let x2 = enc_task(t) + rest;
    let x1 = ":"@ + x2;
    assert(enc_down_entry(t) + rest =~= enc_str(t.file_id) + x1);
    lemma_str_rt(t.file_id, x1);
    lemma_lit_rt(":"@, x2);
    lemma_task_rt(t, rest);
}

/// The entries of the `downloads` map, comma-separated, in index order.
pub open spec fn enc_down_entries(ts: Seq<DownloadTaskView>) -> Seq<char>
    decreases ts.len(),
{
    if ts.len() == 0 {
        Seq::empty()
    } else if ts.len() == 1 {
        enc_down_entry(ts[0])
    } else {
        enc_down_entry(ts[0]) + ","@ + enc_down_entries(ts.skip(1))
    }
}

pub open spec fn p_down_entries(t: Seq<char>) -> Option<(Seq<DownloadTaskView>, Seq<char>)>
    decreases t.len(),
{
    match p_down_entry(t) {
        None => None,
        Some((tv, r)) => if r.len() >= 1 && r[0] == ',' {
            proof {
                lemma_down_entry_consumes(t);
            }
            match p_down_entries(r.skip(1)) {
                None => None,
                Some((more, r2)) => Some((seq![tv] + more, r2)),
            }
        } else {
            Some((seq![tv], r))
        },
    }
}

#[verifier::rlimit(50)]
pub proof fn lemma_down_entries_rt(ts: Seq<DownloadTaskView>, rest: Seq<char>)
    requires
        ts.len() > 0,
        rest.len() >= 1,
        rest[0] != ',',
    ensures
        p_down_entries(enc_down_entries(ts) + rest) == Some(
            (ts.map_values(|t: DownloadTaskView| strip_dirs(t)), rest),
        ),
    decreases ts.len(),
{
    reveal_strlit(",");
    if ts.len() == 1 {
        lemma_down_entry_rt(ts[0], rest);
        assert(seq![strip_dirs(ts[0])] =~= ts.map_values(|t: DownloadTaskView| strip_dirs(t)));
    } else {
        let tail = ","@ + (enc_down_entries(ts.skip(1)) + rest);
        assert(enc_down_entries(ts) + rest =~= enc_down_entry(ts[0]) + tail);
        lemma_down_entry_rt(ts[0], tail);
        assert(tail[0] == ',');
        assert(tail.skip(1) =~= enc_down_entries(ts.skip(1)) + rest);
        lemma_down_entries_rt(ts.skip(1), rest);
        assert(seq![strip_dirs(ts[0])] + ts.skip(1).map_values(
            |t: DownloadTaskView| strip_dirs(t),
        ) =~= ts.map_values(|t: DownloadTaskView| strip_dirs(t)));
        assert((enc_down_entries(ts.skip(1)) + rest).len() >= 1) by {
            lemma_down_entry_consumes(enc_down_entries(ts.skip(1)) + rest);
            lemma_down_entries_rt(ts.skip(1), rest);
        }
    }
}

/// One `url_mapping` entry: canonical URL to file id.
pub open spec fn enc_url_entry(t: DownloadTaskView) -> Seq<char> {
    enc_str(t.url) + ":"@ + enc_str(t.file_id)
}

pub open spec fn p_url_entry(t: Seq<char>) -> Option<((Seq<char>, Seq<char>), Seq<char>)> {
    match p_str(t) {
        None => None,
        Some((url, r1)) => match p_lit(r1, ":"@) {
            None => None,
            Some(r2) => match p_str(r2) {
                None => None,
                Some((fid, r3)) => Some(((url, fid), r3)),
            },
        },
    }
}

pub proof fn lemma_url_entry_consumes(t: Seq<char>)
    ensures
        p_url_entry(t) matches Some(p) ==> p.1.len() < t.len(),
{
    lemma_str_consumes(t);
    if p_str(t) is Some {
        let r1 = (p_str(t)->0).1;
        reveal_strlit(":");
        if p_lit(r1, ":"@) is Some {
            let r2 = p_lit(r1, ":"@)->0;
            lemma_str_consumes(r2);
        }
    }
}

pub proof fn lemma_url_entry_rt(t: DownloadTaskView, rest: Seq<char>)
    ensures
        p_url_entry(enc_url_entry(t) + rest) == Some(((t.url, t.file_id), rest)),
{
    let x2 = enc_str(t.file_id) + rest;
    let x1 = ":"@ + x2;
    assert(enc_url_entry(t) + rest =~= enc_str(t.url) + x1);
    lemma_str_rt(t.url, x1);
    lemma_lit_rt(":"@, x2);
    lemma_str_rt(t.file_id, rest);
}

pub open spec fn enc_url_entries(ts: Seq<DownloadTaskView>) -> Seq<char>
    decreases ts.len(),
{
    if ts.len() == 0 {
        Seq::empty()
    } else if ts.len() == 1 {
        enc_url_entry(ts[0])
    } else {
        enc_url_entry(ts[0]) + ","@ + enc_url_entries(ts.skip(1))
    }
}

pub open spec fn p_url_entries(t: Seq<char>) -> Option<(Seq<(Seq<char>, Seq<char>)>, Seq<char>)>
    decreases t.len(),
{
    match p_url_entry(t) {
        None => None,
        Some((e, r)) => if r.len() >= 1 && r[0] == ',' {
            proof {
                lemma_url_entry_consumes(t);
            }
            match p_url_entries(r.skip(1)) {
                None => None,
                Some((more, r2)) => Some((seq![e] + more, r2)),
            }
        } else {
            Some((seq![e], r))
        },
    }
}

pub proof fn lemma_url_entries_rt(ts: Seq<DownloadTaskView>, rest: Seq<char>)
    requires
        ts.len() > 0,
        rest.len() >= 1,
        rest[0] != ',',
    ensures
        p_url_entries(enc_url_entries(ts) + rest) == Some(
            (ts.map_values(|t: DownloadTaskView| (t.url, t.file_id)), rest),
        ),
    decreases ts.len(),
{
    reveal_strlit(",");
    if ts.len() == 1 {
        lemma_url_entry_rt(ts[0], rest);
        assert(seq![(ts[0].url, ts[0].file_id)] =~= ts.map_values(
            |t: DownloadTaskView| (t.url, t.file_id),
        ));
    } else {
        let tail = ","@ + (enc_url_entries(ts.skip(1)) + rest);
        assert(enc_url_entries(ts) + rest =~= enc_url_entry(ts[0]) + tail);
        lemma_url_entry_rt(ts[0], tail);
        assert(tail[0] == ',');
        assert(tail.skip(1) =~= enc_url_entries(ts.skip(1)) + rest);
        lemma_url_entries_rt(ts.skip(1), rest);
        assert(seq![(ts[0].url, ts[0].file_id)] + ts.skip(1).map_values(
            |t: DownloadTaskView| (t.url, t.file_id),
        ) =~= ts.map_values(|t: DownloadTaskView| (t.url, t.file_id)));
    }
}

/// A directory list, as stored under `symlinks`.
pub open spec fn enc_dir_items(ds: Seq<Seq<char>>) -> Seq<char>
    decreases ds.len(),
{
    if ds.len() == 0 {
        Seq::empty()
    } else if ds.len() == 1 {
        enc_str(ds[0])
    } else {
        enc_str(ds[0]) + ","@ + enc_dir_items(ds.skip(1))
    }
}

pub open spec fn p_dir_items(t: Seq<char>) -> Option<(Seq<Seq<char>>, Seq<char>)>
    decreases t.len(),
{
    match p_str(t) {
        None => None,
        Some((d, r)) => if r.len() >= 1 && r[0] == ',' {
            proof {
                lemma_str_consumes(t);
            }
            match p_dir_items(r.skip(1)) {
                None => None,
                Some((more, r2)) => Some((seq![d] + more, r2)),
            }
        } else {
            Some((seq![d], r))
        },
    }
}

proof fn lemma_dir_items_rt(ds: Seq<Seq<char>>, rest: Seq<char>)
    requires
        ds.len() > 0,
        rest.len() >= 1,
        rest[0] != ',',
    ensures
        p_dir_items(enc_dir_items(ds) + rest) == Some((ds, rest)),
    decreases ds.len(),
{
    reveal_strlit(",");
    if ds.len() == 1 {
        lemma_str_rt(ds[0], rest);
        assert(seq![ds[0]] =~= ds);
    } else {
        let tail = ","@ + (enc_dir_items(ds.skip(1)) + rest);
        assert(enc_dir_items(ds) + rest =~= enc_str(ds[0]) + tail);
        lemma_str_rt(ds[0], tail);
        assert(tail[0] == ',');
        assert(tail.skip(1) =~= enc_dir_items(ds.skip(1)) + rest);
        lemma_dir_items_rt(ds.skip(1), rest);
        assert(seq![ds[0]] + ds.skip(1) =~= ds);
    }
}

pub open spec fn enc_dirs(ds: Seq<Seq<char>>) -> Seq<char> {
    "["@ + enc_dir_items(ds) + "]"@
}

pub open spec fn p_dirs(t: Seq<char>) -> Option<(Seq<Seq<char>>, Seq<char>)> {
    match p_lit(t, "["@) {
        None => None,
        Some(r) => if r.len() >= 1 && r[0] == ']' {
            Some((Seq::empty(), r.skip(1)))
        } else {
            match p_dir_items(r) {
                None => None,
                Some((ds, r2)) => match p_lit(r2, "]"@) {
                    None => None,
                    Some(r3) => Some((ds, r3)),
                },
            }
        },
    }
}

pub proof fn lemma_dirs_consumes(t: Seq<char>)
    ensures
        p_dirs(t) matches Some(p) ==> p.1.len() < t.len(),
{
    reveal_strlit("[");
    reveal_strlit("]");
    if p_lit(t, "["@) is Some {
        let r = p_lit(t, "["@)->0;
        if r.len() >= 1 && r[0] == ']' {
        } else {
            lemma_dir_items_consumes(r);
        }
    }
}

proof fn lemma_dir_items_consumes(t: Seq<char>)
    ensures
        p_dir_items(t) matches Some(p) ==> p.1.len() < t.len(),
    decreases t.len(),
{
    lemma_str_consumes(t);
    if p_str(t) is Some {
        let r = (p_str(t)->0).1;
        if r.len() >= 1 && r[0] == ',' {
            lemma_dir_items_consumes(r.skip(1));
        }
    }
}

pub proof fn lemma_dirs_rt(ds: Seq<Seq<char>>, rest: Seq<char>)
    ensures
        p_dirs(enc_dirs(ds) + rest) == Some((ds, rest)),
{
    reveal_strlit("[");
    reveal_strlit("]");
    let t = enc_dirs(ds) + rest;
    assert(t =~= "["@ + (enc_dir_items(ds) + ("]"@ + rest)));
    lemma_lit_rt("["@, enc_dir_items(ds) + ("]"@ + rest));
    let r = enc_dir_items(ds) + ("]"@ + rest);
    if ds.len() == 0 {
        assert(r =~= "]"@ + rest);
        assert(r[0] == ']');
        assert(r.skip(1) =~= rest);
    } else {
        assert(enc_dir_items(ds)[0] == '"') by {
            if ds.len() == 1 {
                assert(enc_dir_items(ds) == enc_str(ds[0]));
                assert(enc_str(ds[0])[0] == '"');
            } else {
                assert(enc_dir_items(ds)[0] == (enc_str(ds[0]) + ","@ + enc_dir_items(
                    ds.skip(1),
                ))[0]);
                assert(enc_str(ds[0])[0] == '"');
            }
        }
        assert(r[0] == '"');
        lemma_dir_items_rt(ds, "]"@ + rest);
        lemma_lit_rt("]"@, rest);
    }
}

/// One `symlinks` entry: file id to its directory list.
pub open spec fn enc_sym_entry(t: DownloadTaskView) -> Seq<char> {
    enc_str(t.file_id) + ":"@ + enc_dirs(t.dirs)
}

pub open spec fn p_sym_entry(t: Seq<char>) -> Option<((Seq<char>, Seq<Seq<char>>), Seq<char>)> {
    match p_str(t) {
        None => None,
        Some((fid, r1)) => match p_lit(r1, ":"@) {
            None => None,
            Some(r2) => match p_dirs(r2) {
                None => None,
                Some((ds, r3)) => Some(((fid, ds), r3)),
            },
        },
    }
}

pub proof fn lemma_sym_entry_consumes(t: Seq<char>)
    ensures
        p_sym_entry(t) matches Some(p) ==> p.1.len() < t.len(),
{
    lemma_str_consumes(t);
    if p_str(t) is Some {
        let r1 = (p_str(t)->0).1;
        reveal_strlit(":");
        if p_lit(r1, ":"@) is Some {
            let r2 = p_lit(r1, ":"@)->0;
            lemma_dirs_consumes(r2);
        }
    }
}

pub proof fn lemma_sym_entry_rt(t: DownloadTaskView, rest: Seq<char>)
    ensures
        p_sym_entry(enc_sym_entry(t) + rest) == Some(((t.file_id, t.dirs), rest)),
{
    let x2 = enc_dirs(t.dirs) + rest;
    let x1 = ":"@ + x2;
    assert(enc_sym_entry(t) + rest =~= enc_str(t.file_id) + x1);
    lemma_str_rt(t.file_id, x1);
    lemma_lit_rt(":"@, x2);
    lemma_dirs_rt(t.dirs, rest);
}

pub open spec fn enc_sym_entries(ts: Seq<DownloadTaskView>) -> Seq<char>
    decreases ts.len(),
{
    if ts.len() == 0 {
        Seq::empty()
    } else if ts.len() == 1 {
        enc_sym_entry(ts[0])
    } else {
        enc_sym_entry(ts[0]) + ","@ + enc_sym_entries(ts.skip(1))
    }
}

pub open spec fn p_sym_entries(t: Seq<char>) -> Option<
    (Seq<(Seq<char>, Seq<Seq<char>>)>, Seq<char>),
>
    decreases t.len(),
{
    match p_sym_entry(t) {
        None => None,
        Some((e, r)) => if r.len() >= 1 && r[0] == ',' {
            proof {
                lemma_sym_entry_consumes(t);
            }
            match p_sym_entries(r.skip(1)) {
                None => None,
                Some((more, r2)) => Some((seq![e] + more, r2)),
            }
        } else {
            Some((seq![e], r))
        },
    }
}

pub proof fn lemma_sym_entries_rt(ts: Seq<DownloadTaskView>, rest: Seq<char>)
    requires
        ts.len() > 0,
        rest.len() >= 1,
        rest[0] != ',',
    ensures
        p_sym_entries(enc_sym_entries(ts) + rest) == Some(
            (ts.map_values(|t: DownloadTaskView| (t.file_id, t.dirs)), rest),
        ),
    decreases ts.len(),
{
    reveal_strlit(",");
    if ts.len() == 1 {
        lemma_sym_entry_rt(ts[0], rest);
        assert(seq![(ts[0].file_id, ts[0].dirs)] =~= ts.map_values(
            |t: DownloadTaskView| (t.file_id, t.dirs),
        ));
    } else {
        let tail = ","@ + (enc_sym_entries(ts.skip(1)) + rest);
        assert(enc_sym_entries(ts) + rest =~= enc_sym_entry(ts[0]) + tail);
        lemma_sym_entry_rt(ts[0], tail);
        assert(tail[0] == ',');
        assert(tail.skip(1) =~= enc_sym_entries(ts.skip(1)) + rest);
        lemma_sym_entries_rt(ts.skip(1), rest);
        assert(seq![(ts[0].file_id, ts[0].dirs)] + ts.skip(1).map_values(
            |t: DownloadTaskView| (t.file_id, t.dirs),
        ) =~= ts.map_values(|t: DownloadTaskView| (t.file_id, t.dirs)));
    }
}

/// The task-list half of the index invariant: unique file ids, unique URLs,
/// no directory registered twice on one task.
pub open spec fn tasks_wf(ts: Seq<DownloadTaskView>) -> bool {
    &&& forall|i: int, j: int|
        0 <= i < j < ts.len() ==> (#[trigger] ts[i]).file_id != (#[trigger] ts[j]).file_id
    &&& forall|i: int, j: int|
        0 <= i < j < ts.len() ==> (#[trigger] ts[i]).url != (#[trigger] ts[j]).url
    &&& forall|i: int|
        0 <= i < ts.len() ==> forall|a: int, b: int|
            0 <= a < b < (#[trigger] ts[i]).dirs.len() ==> ts[i].dirs[a] != ts[i].dirs[b]
}

/// A map body: empty when a `}` follows at once, the entry list otherwise.
pub open spec fn p_down_map(t: Seq<char>) -> Option<(Seq<DownloadTaskView>, Seq<char>)> {
    if t.len() >= 1 && t[0] == '}' {
        Some((Seq::empty(), t))
    } else {
        p_down_entries(t)
    }
}

pub open spec fn p_url_map(t: Seq<char>) -> Option<(Seq<(Seq<char>, Seq<char>)>, Seq<char>)> {
    if t.len() >= 1 && t[0] == '}' {
        Some((Seq::empty(), t))
    } else {
        p_url_entries(t)
    }
}

pub open spec fn p_sym_map(t: Seq<char>) -> Option<(Seq<(Seq<char>, Seq<Seq<char>>)>, Seq<char>)> {
    if t.len() >= 1 && t[0] == '}' {
        Some((Seq::empty(), t))
    } else {
        p_sym_entries(t)
    }
}

/// The whole record file for a task list.
pub open spec fn enc_record(ts: Seq<DownloadTaskView>) -> Seq<char> {
    "{\"downloads\":{"@ + enc_down_entries(ts) + "},\"url_mapping\":{"@ + enc_url_entries(ts)
        + "},\"symlinks\":{"@ + enc_sym_entries(ts) + "}}"@
}

/// Parses a whole record file; `None` on any deviation from the canonical
/// form, on maps that disagree with each other, and on key collisions.
pub open spec fn p_record(t: Seq<char>) -> Option<Seq<DownloadTaskView>> {
    match p_lit(t, "{\"downloads\":{"@) {
        None => None,
        Some(r0) => match p_down_map(r0) {
            None => None,
            Some((downs, r1)) => match p_lit(r1, "},\"url_mapping\":{"@) {
                None => None,
                Some(r2) => match p_url_map(r2) {
                    None => None,
                    Some((urls, r3)) => match p_lit(r3, "},\"symlinks\":{"@) {
                        None => None,
                        Some(r4) => match p_sym_map(r4) {
                            None => None,
                            Some((syms, r5)) => match p_lit(r5, "}}"@) {
                                None => None,
                                Some(r6) => {
                                    let ts = Seq::new(
                                        downs.len(),
                                        |i: int|
                                            DownloadTaskView {
                                                dirs: syms[i].1,
                                                ..downs[i]
                                            },
                                    );
                                    if r6.len() == 0 && urls.len() == downs.len() && syms.len()
                                        == downs.len() && (forall|i: int|
                                        0 <= i < downs.len() ==> #[trigger] urls[i] == (
                                        downs[i].url,
                                        downs[i].file_id,
                                        )) && (forall|i: int|
                                        0 <= i < downs.len() ==> (#[trigger] syms[i]).0
                                            == downs[i].file_id) && tasks_wf(ts) {
                                        Some(ts)
                                    } else {
                                        None
                                    }
                                },
                            },
                        },
                    },
                },
            },
        },
    }
}

/// The record round trip: the file written for a well-formed task list
/// parses back to exactly that task list. With the encoder running after
/// every mutation, the on-disk record always parses to the in-memory index,
/// and a restart that reads it recovers the index that was persisted.
pub proof fn lemma_record_round_trip(ts: Seq<DownloadTaskView>)
    requires
        tasks_wf(ts),
    ensures
        p_record(enc_record(ts)) == Some(ts),
{
    reveal_strlit("{\"downloads\":{");
    reveal_strlit("},\"url_mapping\":{");
    reveal_strlit("},\"symlinks\":{");
    reveal_strlit("}}");
    let l0 = "{\"downloads\":{"@;
    let l1 = "},\"url_mapping\":{"@;
    let l2 = "},\"symlinks\":{"@;
    let l3 = "}}"@;
    let x3 = enc_sym_entries(ts) + l3;
    let x2 = enc_url_entries(ts) + (l2 + x3);
    let x1 = enc_down_entries(ts) + (l1 + x2);
    assert(enc_record(ts) =~= l0 + x1);
    lemma_lit_rt(l0, x1);
    let downs = ts.map_values(|t: DownloadTaskView| strip_dirs(t));
    if ts.len() == 0 {
        assert(x1 =~= l1 + x2);
        assert(x1[0] == '}');
        assert(downs =~= Seq::<DownloadTaskView>::empty());
        assert(p_down_map(x1) == Some((downs, x1)));
        lemma_lit_rt(l1, x2);
    } else {
        assert(enc_down_entries(ts)[0] == '"') by {
            if ts.len() == 1 {
                assert(enc_down_entries(ts) == enc_down_entry(ts[0]));
            } else {
                assert(enc_down_entries(ts)[0] == (enc_down_entry(ts[0]) + ","@
                    + enc_down_entries(ts.skip(1)))[0]);
            }
            assert(enc_down_entry(ts[0])[0] == enc_str(ts[0].file_id)[0]);
            assert(enc_str(ts[0].file_id)[0] == '"');
        }
        assert(x1[0] == '"');
        assert((l1 + x2).len() >= 1 && (l1 + x2)[0] == '}');
        lemma_down_entries_rt(ts, l1 + x2);
        assert(p_down_map(x1) == Some((downs, l1 + x2)));
        lemma_lit_rt(l1, x2);
    }
    let urls = ts.map_values(|t: DownloadTaskView| (t.url, t.file_id));
    if ts.len() == 0 {
        assert(x2 =~= l2 + x3);
        assert(x2[0] == '}');
        assert(urls =~= Seq::<(Seq<char>, Seq<char>)>::empty());
        assert(p_url_map(x2) == Some((urls, x2)));
        lemma_lit_rt(l2, x3);
    } else {
        assert(enc_url_entries(ts)[0] == '"') by {
            if ts.len() == 1 {
                assert(enc_url_entries(ts) == enc_url_entry(ts[0]));
            } else {
                assert(enc_url_entries(ts)[0] == (enc_url_entry(ts[0]) + ","@ + enc_url_entries(
                    ts.skip(1),
                ))[0]);
            }
            assert(enc_url_entry(ts[0])[0] == enc_str(ts[0].url)[0]);
            assert(enc_str(ts[0].url)[0] == '"');
        }
        assert(x2[0] == '"');
        assert((l2 + x3).len() >= 1 && (l2 + x3)[0] == '}');
        lemma_url_entries_rt(ts, l2 + x3);
        assert(p_url_map(x2) == Some((urls, l2 + x3)));
        lemma_lit_rt(l2, x3);
    }
    let syms = ts.map_values(|t: DownloadTaskView| (t.file_id, t.dirs));
    if ts.len() == 0 {
        assert(x3 =~= l3 + Seq::<char>::empty());
        assert(x3[0] == '}');
        assert(syms =~= Seq::<(Seq<char>, Seq<Seq<char>>)>::empty());
        assert(p_sym_map(x3) == Some((syms, x3)));
        lemma_lit_rt(l3, Seq::<char>::empty());
        assert(x3 =~= l3 + Seq::<char>::empty());
    } else {
        assert(enc_sym_entries(ts)[0] == '"') by {
            if ts.len() == 1 {
                assert(enc_sym_entries(ts) == enc_sym_entry(ts[0]));
            } else {
                assert(enc_sym_entries(ts)[0] == (enc_sym_entry(ts[0]) + ","@ + enc_sym_entries(
                    ts.skip(1),
                ))[0]);
            }
            assert(enc_sym_entry(ts[0])[0] == enc_str(ts[0].file_id)[0]);
            assert(enc_str(ts[0].file_id)[0] == '"');
        }
        assert(x3 =~= enc_sym_entries(ts) + (l3 + Seq::<char>::empty()));
        assert((l3 + Seq::<char>::empty()).len() >= 1 && (l3 + Seq::<char>::empty())[0] == '}');
        lemma_sym_entries_rt(ts, l3 + Seq::<char>::empty());
        assert(p_sym_map(x3) == Some((syms, l3 + Seq::<char>::empty())));
        lemma_lit_rt(l3, Seq::<char>::empty());
    }
    let rebuilt = Seq::new(
        downs.len(),
        |i: int| DownloadTaskView { dirs: syms[i].1, ..downs[i] },
    );
    assert(rebuilt =~= ts);
}

/// The per-task clauses of the cache invariant, extracted for the task list.
pub proof fn lemma_cache_wf_tasks_wf(s: CacheView)
    requires
        crate::download::cache_wf(s),
    ensures
        tasks_wf(s.tasks),
{
    assert forall|i: int| 0 <= i < s.tasks.len() implies forall|a: int, b: int|
        0 <= a < b < (#[trigger] s.tasks[i]).dirs.len() ==> s.tasks[i].dirs[a]
            != s.tasks[i].dirs[b] by {
        assert(s.tasks.contains(s.tasks[i]));
    }
}

proof fn lemma_down_entries_snoc(ts: Seq<DownloadTaskView>, t: DownloadTaskView)
    ensures
        enc_down_entries(ts.push(t)) == if ts.len() == 0 {
            enc_down_entry(t)
        } else {
            enc_down_entries(ts) + ","@ + enc_down_entry(t)
        },
    decreases ts.len(),
{
    let p = ts.push(t);
    if ts.len() == 0 {
        assert(p.len() == 1 && p[0] == t);
    } else {
        assert(p[0] == ts[0]);
        assert(p.skip(1) =~= ts.skip(1).push(t));
        lemma_down_entries_snoc(ts.skip(1), t);
        if ts.len() == 1 {
            assert(p.len() == 2);
            assert(ts.skip(1).len() == 0);
            assert(enc_down_entries(p) == enc_down_entry(ts[0]) + ","@ + enc_down_entry(t));
        } else {
            assert(enc_down_entry(ts[0]) + ","@ + (enc_down_entries(ts.skip(1)) + ","@
                + enc_down_entry(t)) =~= (enc_down_entry(ts[0]) + ","@ + enc_down_entries(
                ts.skip(1),
            )) + ","@ + enc_down_entry(t));
        }
    }
}

proof fn lemma_url_entries_snoc(ts: Seq<DownloadTaskView>, t: DownloadTaskView)
    ensures
        enc_url_entries(ts.push(t)) == if ts.len() == 0 {
            enc_url_entry(t)
        } else {
            enc_url_entries(ts) + ","@ + enc_url_entry(t)
        },
    decreases ts.len(),
{
    let p = ts.push(t);
    if ts.len() == 0 {
        assert(p.len() == 1 && p[0] == t);
    } else {
        assert(p[0] == ts[0]);
        assert(p.skip(1) =~= ts.skip(1).push(t));
        lemma_url_entries_snoc(ts.skip(1), t);
        if ts.len() == 1 {
            assert(p.len() == 2);
            assert(ts.skip(1).len() == 0);
            assert(enc_url_entries(p) == enc_url_entry(ts[0]) + ","@ + enc_url_entry(t));
        } else {
            assert(enc_url_entry(ts[0]) + ","@ + (enc_url_entries(ts.skip(1)) + ","@
                + enc_url_entry(t)) =~= (enc_url_entry(ts[0]) + ","@ + enc_url_entries(
                ts.skip(1),
            )) + ","@ + enc_url_entry(t));
        }
    }
}

proof fn lemma_sym_entries_snoc(ts: Seq<DownloadTaskView>, t: DownloadTaskView)
    ensures
        enc_sym_entries(ts.push(t)) == if ts.len() == 0 {
            enc_sym_entry(t)
        } else {
            enc_sym_entries(ts) + ","@ + enc_sym_entry(t)
        },
    decreases ts.len(),
{
    let p = ts.push(t);
    if ts.len() == 0 {
        assert(p.len() == 1 && p[0] == t);
    } else {
        assert(p[0] == ts[0]);
        assert(p.skip(1) =~= ts.skip(1).push(t));
        lemma_sym_entries_snoc(ts.skip(1), t);
        if ts.len() == 1 {
            assert(p.len() == 2);
            assert(ts.skip(1).len() == 0);
            assert(enc_sym_entries(p) == enc_sym_entry(ts[0]) + ","@ + enc_sym_entry(t));
        } else {
            assert(enc_sym_entry(ts[0]) + ","@ + (enc_sym_entries(ts.skip(1)) + ","@
                + enc_sym_entry(t)) =~= (enc_sym_entry(ts[0]) + ","@ + enc_sym_entries(
                ts.skip(1),
            )) + ","@ + enc_sym_entry(t));
        }
    }
}

proof fn lemma_dir_items_snoc(ds: Seq<Seq<char>>, d: Seq<char>)
    ensures
        enc_dir_items(ds.push(d)) == if ds.len() == 0 {
            enc_str(d)
        } else {
            enc_dir_items(ds) + ","@ + enc_str(d)
        },
    decreases ds.len(),
{
    let p = ds.push(d);
    if ds.len() == 0 {
        assert(p.len() == 1 && p[0] == d);
    } else {
        assert(p[0] == ds[0]);
        assert(p.skip(1) =~= ds.skip(1).push(d));
        lemma_dir_items_snoc(ds.skip(1), d);
        if ds.len() == 1 {
            assert(p.len() == 2);
            assert(ds.skip(1).len() == 0);
            assert(enc_dir_items(p) == enc_str(ds[0]) + ","@ + enc_str(d));
        } else {
            assert(enc_str(ds[0]) + ","@ + (enc_dir_items(ds.skip(1)) + ","@ + enc_str(d)) =~= (
            enc_str(ds[0]) + ","@ + enc_dir_items(ds.skip(1))) + ","@ + enc_str(d));
        }
    }
}

fn write_task(out: &mut String, t: &DownloadTask)
    ensures
        final(out)@ == old(out)@ + enc_task(t@),
{
    out.append("{\"url\":");
    write_str(out, t.url().as_str());
    out.append(",\"downloadable_url\":");
    write_str(out, t.downloadable_url().as_str());
    out.append(",\"status\":");
    match t.status() {
        DownloadStatus::Pending => write_str(out, "pending"),
        DownloadStatus::Completed => write_str(out, "completed"),
        DownloadStatus::Failed => write_str(out, "failed"),
    }
    out.append(",\"file_id\":");
    write_str(out, t.file_id().as_str());
    out.append("}");
    proof {
        assert(out@ =~= old(out)@ + enc_task(t@));
    }
}

fn write_down_entry(out: &mut String, t: &DownloadTask)
    ensures
        final(out)@ == old(out)@ + enc_down_entry(t@),
{
    write_str(out, t.file_id().as_str());
    out.append(":");
    write_task(out, t);
    proof {
        assert(out@ =~= old(out)@ + enc_down_entry(t@));
    }
}

fn write_url_entry(out: &mut String, t: &DownloadTask)
    ensures
        final(out)@ == old(out)@ + enc_url_entry(t@),
{
    write_str(out, t.url().as_str());
    out.append(":");
    write_str(out, t.file_id().as_str());
    proof {
        assert(out@ =~= old(out)@ + enc_url_entry(t@));
    }
}

fn write_dirs(out: &mut String, dirs: &Vec<String>)
    ensures
        final(out)@ == old(out)@ + enc_dirs(dirs@.map_values(|d: String| d@)),
{
    let ghost ds = dirs@.map_values(|d: String| d@);
    out.append("[");
    let n = dirs.len();
    let mut i: usize = 0;
    proof {
        assert(ds.take(0) =~= Seq::<Seq<char>>::empty());
    }
    while i < n
        invariant
            0 <= i <= n,
            n == dirs@.len(),
            ds == dirs@.map_values(|d: String| d@),
            out@ == old(out)@ + "["@ + enc_dir_items(ds.take(i as int)),
        decreases n - i,
    {
        proof {
            assert(ds.take(i + 1) =~= ds.take(i as int).push(ds[i as int]));
            lemma_dir_items_snoc(ds.take(i as int), ds[i as int]);
        }
        if i > 0 {
            out.append(",");
        }
        write_str(out, dirs[i].as_str());
        proof {
            if i == 0 {
                assert(out@ =~= old(out)@ + "["@ + enc_dir_items(ds.take(i + 1)));
            } else {
                assert(out@ =~= old(out)@ + "["@ + enc_dir_items(ds.take(i + 1)));
            }
        }
        i = i + 1;
    }
    out.append("]");
    proof {
        assert(ds.take(n as int) =~= ds);
        assert(out@ =~= old(out)@ + enc_dirs(ds));
    }
}

fn write_sym_entry(out: &mut String, t: &DownloadTask)
    ensures
        final(out)@ == old(out)@ + enc_sym_entry(t@),
{
    write_str(out, t.file_id().as_str());
    out.append(":");
    write_dirs(out, t.target_dirs());
    proof {
        assert(out@ =~= old(out)@ + enc_sym_entry(t@));
    }
}

/// Serializes the index to the record file's canonical text.
pub fn encode_record(state: &DownloadState) -> (r: String)
    ensures
        r@ == enc_record(state@.tasks),
{
    let tasks = state.tasks();
    let ghost ts = state@.tasks;
    let n = tasks.len();
    let mut out = String::new();
    out.append("{\"downloads\":{");
    let mut i: usize = 0;
    proof {
        assert(ts.take(0) =~= Seq::<DownloadTaskView>::empty());
        assert(out@ =~= Seq::<char>::empty() + "{\"downloads\":{"@ + enc_down_entries(ts.take(0)));
    }
    while i < n
        invariant
            0 <= i <= n,
            n == tasks@.len(),
            ts == tasks@.map_values(|t: DownloadTask| t@),
            out@ == Seq::<char>::empty() + "{\"downloads\":{"@ + enc_down_entries(
                ts.take(i as int),
            ),
        decreases n - i,
    {
        proof {
            assert(ts.take(i + 1) =~= ts.take(i as int).push(ts[i as int]));
            lemma_down_entries_snoc(ts.take(i as int), ts[i as int]);
        }
        if i > 0 {
            out.append(",");
        }
        write_down_entry(&mut out, &tasks[i]);
        proof {
            assert(out@ =~= Seq::<char>::empty() + "{\"downloads\":{"@ + enc_down_entries(
                ts.take(i + 1),
            ));
        }
        i = i + 1;
    }
    proof {
        assert(ts.take(n as int) =~= ts);
    }
    out.append("},\"url_mapping\":{");
    let ghost pre_url = out@;
    let mut j: usize = 0;
    proof {
        assert(out@ =~= pre_url + enc_url_entries(ts.take(0)));
    }
    while j < n
        invariant
            0 <= j <= n,
            n == tasks@.len(),
            ts == tasks@.map_values(|t: DownloadTask| t@),
            out@ == pre_url + enc_url_entries(ts.take(j as int)),
        decreases n - j,
    {
        proof {
            assert(ts.take(j + 1) =~= ts.take(j as int).push(ts[j as int]));
            lemma_url_entries_snoc(ts.take(j as int), ts[j as int]);
        }
        if j > 0 {
            out.append(",");
        }
        write_url_entry(&mut out, &tasks[j]);
        proof {
            assert(out@ =~= pre_url + enc_url_entries(ts.take(j + 1)));
        }
        j = j + 1;
    }
    proof {
        assert(ts.take(n as int) =~= ts);
    }
    out.append("},\"symlinks\":{");
    let ghost pre_sym = out@;
    let mut k: usize = 0;
    proof {
        assert(out@ =~= pre_sym + enc_sym_entries(ts.take(0)));
    }
    while k < n
        invariant
            0 <= k <= n,
            n == tasks@.len(),
            ts == tasks@.map_values(|t: DownloadTask| t@),
            out@ == pre_sym + enc_sym_entries(ts.take(k as int)),
        decreases n - k,
    {
        proof {
            assert(ts.take(k + 1) =~= ts.take(k as int).push(ts[k as int]));
            lemma_sym_entries_snoc(ts.take(k as int), ts[k as int]);
        }
        if k > 0 {
            out.append(",");
        }
        write_sym_entry(&mut out, &tasks[k]);
        proof {
            assert(out@ =~= pre_sym + enc_sym_entries(ts.take(k + 1)));
        }
        k = k + 1;
    }
    proof {
        assert(ts.take(n as int) =~= ts);
    }
    out.append("}}");
    proof {
        assert(out@ =~= enc_record(ts));
    }
    out
}

fn peek(s: &str, i: usize, c: char) -> (r: bool)
    requires
        i <= s@.len(),
    ensures
        r == (i < s@.len() && s@[i as int] == c),
{
    let n = s.unicode_len();
    if i == n {
        false
    } else {
        s.get_char(i) == c
    }
}

fn parse_status(s: &str, i: usize) -> (r: Option<(DownloadStatus, usize)>)
    requires
        i <= s@.len(),
    ensures
        r matches Some(p) ==> i < p.1 <= s@.len() && (p_status(s@.skip(i as int)) matches Some(q)
            && q.0 == p.0 && q.1 == s@.skip(p.1 as int)),
        r is None ==> p_status(s@.skip(i as int)) is None,
{
    match parse_str(s, i) {
        None => None,
        Some((v, j)) => {
            if v == String::from_str("pending") {
                Some((DownloadStatus::Pending, j))
            } else if v == String::from_str("completed") {
                Some((DownloadStatus::Completed, j))
            } else if v == String::from_str("failed") {
                Some((DownloadStatus::Failed, j))
            } else {
                None
            }
        },
    }
}

fn parse_task(s: &str, i: usize) -> (r: Option<(DownloadTask, usize)>)
    requires
        i <= s@.len(),
    ensures
        r matches Some(p) ==> i < p.1 <= s@.len() && (p_task(s@.skip(i as int)) matches Some(q)
            && q.0 == p.0@ && q.1 == s@.skip(p.1 as int)),
        r is None ==> p_task(s@.skip(i as int)) is None,
{
    let j1 = match eat_lit(s, i, "{\"url\":") {
        Some(j) => j,
        None => {
            return None;
        },
    };
    let (url, j2) = match parse_str(s, j1) {
        Some(p) => p,
        None => {
            return None;
        },
    };
    let j3 = match eat_lit(s, j2, ",\"downloadable_url\":") {
        Some(j) => j,
        None => {
            return None;
        },
    };
    let (durl, j4) = match parse_str(s, j3) {
        Some(p) => p,
        None => {
            return None;
        },
    };
    let j5 = match eat_lit(s, j4, ",\"status\":") {
        Some(j) => j,
        None => {
            return None;
        },
    };
    let (st, j6) = match parse_status(s, j5) {
        Some(p) => p,
        None => {
            return None;
        },
    };
    let j7 = match eat_lit(s, j6, ",\"file_id\":") {
        Some(j) => j,
        None => {
            return None;
        },
    };
    let (fid, j8) = match parse_str(s, j7) {
        Some(p) => p,
        None => {
            return None;
        },
    };
    let j9 = match eat_lit(s, j8, "}") {
        Some(j) => j,
        None => {
            return None;
        },
    };
    let t = DownloadTask::from_parts(url, durl, st, fid, Vec::new());
    proof {
        assert(t@.dirs =~= Seq::<Seq<char>>::empty());
    }
    Some((t, j9))
}

fn parse_down_entry(s: &str, i: usize) -> (r: Option<(DownloadTask, usize)>)
    requires
        i <= s@.len(),
    ensures
        r matches Some(p) ==> i < p.1 <= s@.len() && (p_down_entry(s@.skip(i as int))
            matches Some(q) && q.0 == p.0@ && q.1 == s@.skip(p.1 as int)),
        r is None ==> p_down_entry(s@.skip(i as int)) is None,
{
    let (key, j1) = match parse_str(s, i) {
        Some(p) => p,
        None => {
            return None;
        },
    };
    let j2 = match eat_lit(s, j1, ":") {
        Some(j) => j,
        None => {
            return None;
        },
    };
    let (task, j3) = match parse_task(s, j2) {
        Some(p) => p,
        None => {
            return None;
        },
    };
    if key == *task.file_id() {
        Some((task, j3))
    } else {
        None
    }
}

fn parse_down_entries(s: &str, i: usize) -> (r: Option<(Vec<DownloadTask>, usize)>)
    requires
        i <= s@.len(),
    ensures
        r matches Some(p) ==> i < p.1 <= s@.len() && (p_down_entries(s@.skip(i as int))
            matches Some(q) && q.0 == p.0@.map_values(|t: DownloadTask| t@) && q.1 == s@.skip(
            p.1 as int,
        )),
        r is None ==> p_down_entries(s@.skip(i as int)) is None,
    decreases s@.len() - i,
{
    let n = s.unicode_len();
    proof {
        assert(s@.len() == n);
    }
    let (task, j) = match parse_down_entry(s, i) {
        Some(p) => p,
        None => {
            return None;
        },
    };
    if peek(s, j, ',') {
        proof {
            assert(s@.skip(i as int).skip(j - i)[0] == s@[j as int]);
            assert((p_down_entry(s@.skip(i as int))->0).1[0] == ',');
            assert(s@.skip(j as int).skip(1) =~= s@.skip(j + 1));
        }
        match parse_down_entries(s, j + 1) {
            Some((mut vec, k)) => {
                let ghost pre = vec@;
                let ghost tv = task@;
                vec.insert(0, task);
                proof {
                    assert(vec@ =~= seq![vec@[0]] + pre);
                    assert(vec@.map_values(|t: DownloadTask| t@) =~= seq![tv] + pre.map_values(
                        |t: DownloadTask| t@,
                    ));
                }
                Some((vec, k))
            },
            None => None,
        }
    } else {
        proof {
            let q = p_down_entry(s@.skip(i as int))->0;
            assert(!(q.1.len() >= 1 && q.1[0] == ','));
        }
        let mut vec: Vec<DownloadTask> = Vec::new();
        vec.push(task);
        proof {
            assert(vec@.map_values(|t: DownloadTask| t@) =~= seq![vec@[0]@]);
        }
        Some((vec, j))
    }
}

fn parse_url_entry(s: &str, i: usize) -> (r: Option<((String, String), usize)>)
    requires
        i <= s@.len(),
    ensures
        r matches Some(p) ==> i < p.1 <= s@.len() && (p_url_entry(s@.skip(i as int))
            matches Some(q) && q.0 == (p.0.0@, p.0.1@) && q.1 == s@.skip(p.1 as int)),
        r is None ==> p_url_entry(s@.skip(i as int)) is None,
{
    let (url, j1) = match parse_str(s, i) {
        Some(p) => p,
        None => {
            return None;
        },
    };
    let j2 = match eat_lit(s, j1, ":") {
        Some(j) => j,
        None => {
            return None;
        },
    };
    let (fid, j3) = match parse_str(s, j2) {
        Some(p) => p,
        None => {
            return None;
        },
    };
    Some(((url, fid), j3))
}

fn parse_url_entries(s: &str, i: usize) -> (r: Option<(Vec<(String, String)>, usize)>)
    requires
        i <= s@.len(),
    ensures
        r matches Some(p) ==> i < p.1 <= s@.len() && (p_url_entries(s@.skip(i as int))
            matches Some(q) && q.0 == p.0@.map_values(|e: (String, String)| (e.0@, e.1@))
            && q.1 == s@.skip(p.1 as int)),
        r is None ==> p_url_entries(s@.skip(i as int)) is None,
    decreases s@.len() - i,
{
    let n = s.unicode_len();
    proof {
        assert(s@.len() == n);
    }
    let (entry, j) = match parse_url_entry(s, i) {
        Some(p) => p,
        None => {
            return None;
        },
    };
    if peek(s, j, ',') {
        proof {
            assert((p_url_entry(s@.skip(i as int))->0).1[0] == ',');
            assert(s@.skip(j as int).skip(1) =~= s@.skip(j + 1));
        }
        match parse_url_entries(s, j + 1) {
            Some((mut vec, k)) => {
                let ghost pre = vec@;
                let ghost ev = (entry.0@, entry.1@);
                vec.insert(0, entry);
                proof {
                    assert(vec@ =~= seq![vec@[0]] + pre);
                    assert(vec@.map_values(|e: (String, String)| (e.0@, e.1@)) =~= seq![ev]
                        + pre.map_values(|e: (String, String)| (e.0@, e.1@)));
                }
                Some((vec, k))
            },
            None => None,
        }
    } else {
        proof {
            let q = p_url_entry(s@.skip(i as int))->0;
            assert(!(q.1.len() >= 1 && q.1[0] == ','));
        }
        let ghost ev = (entry.0@, entry.1@);
        let mut vec: Vec<(String, String)> = Vec::new();
        vec.push(entry);
        proof {
            assert(vec@.map_values(|e: (String, String)| (e.0@, e.1@)) =~= seq![ev]);
        }
        Some((vec, j))
    }
}

fn parse_dir_items(s: &str, i: usize) -> (r: Option<(Vec<String>, usize)>)
    requires
        i <= s@.len(),
    ensures
        r matches Some(p) ==> i < p.1 <= s@.len() && (p_dir_items(s@.skip(i as int))
            matches Some(q) && q.0 == p.0@.map_values(|d: String| d@) && q.1 == s@.skip(
            p.1 as int,
        )),
        r is None ==> p_dir_items(s@.skip(i as int)) is None,
    decreases s@.len() - i,
{
    let n = s.unicode_len();
    proof {
        assert(s@.len() == n);
    }
    let (d, j) = match parse_str(s, i) {
        Some(p) => p,
        None => {
            return None;
        },
    };
    if peek(s, j, ',') {
        proof {
            assert((p_str(s@.skip(i as int))->0).1[0] == ',');
            assert(s@.skip(j as int).skip(1) =~= s@.skip(j + 1));
        }
        match parse_dir_items(s, j + 1) {
            Some((mut vec, k)) => {
                let ghost pre = vec@;
                let ghost dv = d@;
                vec.insert(0, d);
                proof {
                    assert(vec@ =~= seq![vec@[0]] + pre);
                    assert(vec@.map_values(|x: String| x@) =~= seq![dv] + pre.map_values(
                        |x: String| x@,
                    ));
                }
                Some((vec, k))
            },
            None => None,
        }
    } else {
        proof {
            let q = p_str(s@.skip(i as int))->0;
            assert(!(q.1.len() >= 1 && q.1[0] == ','));
        }
        let ghost dv = d@;
        let mut vec: Vec<String> = Vec::new();
        vec.push(d);
        proof {
            assert(vec@.map_values(|x: String| x@) =~= seq![dv]);
        }
        Some((vec, j))
    }
}

fn parse_dirs(s: &str, i: usize) -> (r: Option<(Vec<String>, usize)>)
    requires
        i <= s@.len(),
    ensures
        r matches Some(p) ==> i < p.1 <= s@.len() && (p_dirs(s@.skip(i as int)) matches Some(q)
            && q.0 == p.0@.map_values(|d: String| d@) && q.1 == s@.skip(p.1 as int)),
        r is None ==> p_dirs(s@.skip(i as int)) is None,
{
    let n = s.unicode_len();
    proof {
        assert(s@.len() == n);
    }
    let j0 = match eat_lit(s, i, "[") {
        Some(j) => j,
        None => {
            return None;
        },
    };
    proof {
        reveal_strlit("[");
    }
    if peek(s, j0, ']') {
        proof {
            assert(s@.skip(j0 as int)[0] == ']');
            assert(s@.skip(j0 as int).skip(1) =~= s@.skip(j0 + 1));
        }
        let vec: Vec<String> = Vec::new();
        proof {
            assert(vec@.map_values(|d: String| d@) =~= Seq::<Seq<char>>::empty());
        }
        return Some((vec, j0 + 1));
    }
    proof {
        assert(!(s@.skip(j0 as int).len() >= 1 && s@.skip(j0 as int)[0] == ']'));
    }
    let (items, j1) = match parse_dir_items(s, j0) {
        Some(p) => p,
        None => {
            return None;
        },
    };
    let j2 = match eat_lit(s, j1, "]") {
        Some(j) => j,
        None => {
            return None;
        },
    };
    Some((items, j2))
}

fn parse_sym_entry(s: &str, i: usize) -> (r: Option<((String, Vec<String>), usize)>)
    requires
        i <= s@.len(),
    ensures
        r matches Some(p) ==> i < p.1 <= s@.len() && (p_sym_entry(s@.skip(i as int))
            matches Some(q) && q.0 == (p.0.0@, p.0.1@.map_values(|d: String| d@)) && q.1
            == s@.skip(p.1 as int)),
        r is None ==> p_sym_entry(s@.skip(i as int)) is None,
{
    let (fid, j1) = match parse_str(s, i) {
        Some(p) => p,
        None => {
            return None;
        },
    };
    let j2 = match eat_lit(s, j1, ":") {
        Some(j) => j,
        None => {
            return None;
        },
    };
    let (ds, j3) = match parse_dirs(s, j2) {
        Some(p) => p,
        None => {
            return None;
        },
    };
    Some(((fid, ds), j3))
}

fn parse_sym_entries(s: &str, i: usize) -> (r: Option<(Vec<(String, Vec<String>)>, usize)>)
    requires
        i <= s@.len(),
    ensures
        r matches Some(p) ==> i < p.1 <= s@.len() && (p_sym_entries(s@.skip(i as int))
            matches Some(q) && q.0 == p.0@.map_values(
            |e: (String, Vec<String>)| (e.0@, e.1@.map_values(|d: String| d@)),
        ) && q.1 == s@.skip(p.1 as int)),
        r is None ==> p_sym_entries(s@.skip(i as int)) is None,
    decreases s@.len() - i,
{
    let n = s.unicode_len();
    proof {
        assert(s@.len() == n);
    }
    let (entry, j) = match parse_sym_entry(s, i) {
        Some(p) => p,
        None => {
            return None;
        },
    };
    if peek(s, j, ',') {
        proof {
            assert((p_sym_entry(s@.skip(i as int))->0).1[0] == ',');
            assert(s@.skip(j as int).skip(1) =~= s@.skip(j + 1));
        }
        match parse_sym_entries(s, j + 1) {
            Some((mut vec, k)) => {
                let ghost pre = vec@;
                let ghost ev = (entry.0@, entry.1@.map_values(|d: String| d@));
                vec.insert(0, entry);
                proof {
                    assert(vec@ =~= seq![vec@[0]] + pre);
                    assert(vec@.map_values(
                        |e: (String, Vec<String>)| (e.0@, e.1@.map_values(|d: String| d@)),
                    ) =~= seq![ev] + pre.map_values(
                        |e: (String, Vec<String>)| (e.0@, e.1@.map_values(|d: String| d@)),
                    ));
                }
                Some((vec, k))
            },
            None => None,
        }
    } else {
        proof {
            let q = p_sym_entry(s@.skip(i as int))->0;
            assert(!(q.1.len() >= 1 && q.1[0] == ','));
        }
        let ghost ev = (entry.0@, entry.1@.map_values(|d: String| d@));
        let mut vec: Vec<(String, Vec<String>)> = Vec::new();
        vec.push(entry);
        proof {
            assert(vec@.map_values(
                |e: (String, Vec<String>)| (e.0@, e.1@.map_values(|d: String| d@)),
            ) =~= seq![ev]);
        }
        Some((vec, j))
    }
}

fn clone_strings(v: &Vec<String>) -> (r: Vec<String>)
    ensures
        r@.map_values(|d: String| d@) == v@.map_values(|d: String| d@),
{
    let mut r: Vec<String> = Vec::new();
    let n = v.len();
    let mut i: usize = 0;
    while i < n
        invariant
            0 <= i <= n,
            n == v@.len(),
            r@.len() == i,
            forall|j: int| 0 <= j < i ==> (#[trigger] r@[j])@ == v@[j]@,
        decreases n - i,
    {
        r.push(v[i].clone());
        i = i + 1;
    }
    proof {
        assert(r@.map_values(|d: String| d@) =~= v@.map_values(|d: String| d@));
    }
    r
}

fn check_ids_unique(tasks: &Vec<DownloadTask>) -> (r: bool)
    ensures
        r == (forall|i: int, j: int|
            0 <= i < j < tasks@.len() ==> (#[trigger] tasks@[i])@.file_id != (
            #[trigger] tasks@[j])@.file_id),
{
    let n = tasks.len();
    let mut i: usize = 0;
    while i < n
        invariant
            0 <= i <= n,
            n == tasks@.len(),
            forall|a: int, b: int|
                0 <= a < b < n && a < i ==> (#[trigger] tasks@[a])@.file_id != (
                #[trigger] tasks@[b])@.file_id,
        decreases n - i,
    {
        let mut j = i + 1;
        while j < n
            invariant
                0 <= i < j <= n,
                n == tasks@.len(),
                forall|b: int|
                    i < b < j ==> (#[trigger] tasks@[b])@.file_id != tasks@[i as int]@.file_id,
            decreases n - j,
        {
            if *tasks[i].file_id() == *tasks[j].file_id() {
                return false;
            }
            j = j + 1;
        }
        i = i + 1;
    }
    true
}

fn check_urls_unique(tasks: &Vec<DownloadTask>) -> (r: bool)
    ensures
        r == (forall|i: int, j: int|
            0 <= i < j < tasks@.len() ==> (#[trigger] tasks@[i])@.url != (
            #[trigger] tasks@[j])@.url),
{
    let n = tasks.len();
    let mut i: usize = 0;
    while i < n
        invariant
            0 <= i <= n,
            n == tasks@.len(),
            forall|a: int, b: int|
                0 <= a < b < n && a < i ==> (#[trigger] tasks@[a])@.url != (
                #[trigger] tasks@[b])@.url,
        decreases n - i,
    {
        let mut j = i + 1;
        while j < n
            invariant
                0 <= i < j <= n,
                n == tasks@.len(),
                forall|b: int| i < b < j ==> (#[trigger] tasks@[b])@.url != tasks@[i as int]@.url,
            decreases n - j,
        {
            if *tasks[i].url() == *tasks[j].url() {
                return false;
            }
            j = j + 1;
        }
        i = i + 1;
    }
    true
}

fn check_dirs_unique(tasks: &Vec<DownloadTask>) -> (r: bool)
    ensures
        r == (forall|i: int|
            0 <= i < tasks@.len() ==> forall|a: int, b: int|
                0 <= a < b < (#[trigger] tasks@[i])@.dirs.len() ==> tasks@[i]@.dirs[a]
                    != tasks@[i]@.dirs[b]),
{
    let n = tasks.len();
    let mut i: usize = 0;
    while i < n
        invariant
            0 <= i <= n,
            n == tasks@.len(),
            forall|k: int|
                0 <= k < i ==> forall|a: int, b: int|
                    0 <= a < b < (#[trigger] tasks@[k])@.dirs.len() ==> tasks@[k]@.dirs[a]
                        != tasks@[k]@.dirs[b],
        decreases n - i,
    {
        let dirs = tasks[i].target_dirs();
        let m = dirs.len();
        proof {
            assert(dirs@.map_values(|d: String| d@) == tasks@[i as int]@.dirs);
        }
        let mut a: usize = 0;
        while a < m
            invariant
                0 <= a <= m,
                i < n == tasks@.len(),
                m == dirs@.len(),
                dirs@.map_values(|d: String| d@) == tasks@[i as int]@.dirs,
                forall|x: int, y: int|
                    0 <= x < y < m && x < a ==> (#[trigger] dirs@[x])@ != (#[trigger] dirs@[y])@,
            decreases m - a,
        {
            let mut b = a + 1;
            while b < m
                invariant
                    0 <= a < b <= m,
                    i < n == tasks@.len(),
                    m == dirs@.len(),
                    dirs@.map_values(|d: String| d@) == tasks@[i as int]@.dirs,
                    forall|y: int| a < y < b ==> (#[trigger] dirs@[y])@ != dirs@[a as int]@,
                decreases m - b,
            {
                if dirs[a] == dirs[b] {
                    proof {
                        assert(tasks@[i as int]@.dirs[a as int] == tasks@[i as int]@.dirs[b as int]);
                    }
                    return false;
                }
                b = b + 1;
            }
            a = a + 1;
        }
        proof {
            assert forall|x: int, y: int|
                0 <= x < y < tasks@[i as int]@.dirs.len() implies tasks@[i as int]@.dirs[x]
                != tasks@[i as int]@.dirs[y] by {
                assert(tasks@[i as int]@.dirs[x] == dirs@[x]@);
                assert(tasks@[i as int]@.dirs[y] == dirs@[y]@);
            }
        }
        i = i + 1;
    }
    true
}

/// Parses the whole record file, exactly as `p_record` reads it.
#[verifier::rlimit(100)]
#[verifier::spinoff_prover]
pub fn parse_record(s: &str) -> (r: Option<Vec<DownloadTask>>)
    ensures
        r matches Some(v) ==> p_record(s@) == Some(v@.map_values(|t: DownloadTask| t@)),
        r is None ==> p_record(s@) is None,
{
    let n = s.unicode_len();
    proof {
        assert(s@.skip(0) =~= s@);
    }
    let j0 = match eat_lit(s, 0, "{\"downloads\":{") {
        Some(j) => j,
        None => {
            return None;
        },
    };
    let (downs, j1) = if peek(s, j0, '}') {
        proof {
            assert(s@.skip(j0 as int)[0] == '}');
        }
        (Vec::new(), j0)
    } else {
        proof {
            assert(!(s@.skip(j0 as int).len() >= 1 && s@.skip(j0 as int)[0] == '}'));
        }
        match parse_down_entries(s, j0) {
            Some(p) => p,
            None => {
                return None;
            },
        }
    };
    proof {
        if downs@.len() == 0 && j1 == j0 {
            assert(downs@.map_values(|t: DownloadTask| t@) =~= Seq::<DownloadTaskView>::empty());
        }
    }
    let j2 = match eat_lit(s, j1, "},\"url_mapping\":{") {
        Some(j) => j,
        None => {
            return None;
        },
    };
    let (urls, j3) = if peek(s, j2, '}') {
        proof {
            assert(s@.skip(j2 as int)[0] == '}');
        }
        (Vec::new(), j2)
    } else {
        proof {
            assert(!(s@.skip(j2 as int).len() >= 1 && s@.skip(j2 as int)[0] == '}'));
        }
        match parse_url_entries(s, j2) {
            Some(p) => p,
            None => {
                return None;
            },
        }
    };
    proof {
        if urls@.len() == 0 && j3 == j2 {
            assert(urls@.map_values(|e: (String, String)| (e.0@, e.1@)) =~= Seq::<
                (Seq<char>, Seq<char>),
            >::empty());
        }
    }
    let j4 = match eat_lit(s, j3, "},\"symlinks\":{") {
        Some(j) => j,
        None => {
            return None;
        },
    };
    let (syms, j5) = if peek(s, j4, '}') {
        proof {
            assert(s@.skip(j4 as int)[0] == '}');
        }
        (Vec::new(), j4)
    } else {
        proof {
            assert(!(s@.skip(j4 as int).len() >= 1 && s@.skip(j4 as int)[0] == '}'));
        }
        match parse_sym_entries(s, j4) {
            Some(p) => p,
            None => {
                return None;
            },
        }
    };
    proof {
        if syms@.len() == 0 && j5 == j4 {
            assert(syms@.map_values(
                |e: (String, Vec<String>)| (e.0@, e.1@.map_values(|d: String| d@)),
            ) =~= Seq::<(Seq<char>, Seq<Seq<char>>)>::empty());
        }
    }
    let j6 = match eat_lit(s, j5, "}}") {
        Some(j) => j,
        None => {
            return None;
        },
    };
    let ghost downs_v = downs@.map_values(|t: DownloadTask| t@);
    let ghost urls_v = urls@.map_values(|e: (String, String)| (e.0@, e.1@));
    let ghost syms_v = syms@.map_values(
        |e: (String, Vec<String>)| (e.0@, e.1@.map_values(|d: String| d@)),
    );
    let ghost ts = Seq::new(
        downs_v.len(),
        |i: int| DownloadTaskView { dirs: syms_v[i].1, ..downs_v[i] },
    );
    proof {
        assert(p_down_map(s@.skip(j0 as int)) == Some((downs_v, s@.skip(j1 as int))));
        assert(p_url_map(s@.skip(j2 as int)) == Some((urls_v, s@.skip(j3 as int))));
        assert(p_sym_map(s@.skip(j4 as int)) == Some((syms_v, s@.skip(j5 as int))));
    }
    if j6 != n {
        proof {
            assert(s@.skip(j6 as int).len() != 0);
        }
        return None;
    }
    proof {
        assert(s@.skip(j6 as int).len() == 0);
    }
    let dn = downs.len();
    if urls.len() != dn || syms.len() != dn {
        return None;
    }
    if j6 != n {
        proof {
            assert(s@.skip(j6 as int).len() != 0);
        }
        return None;
    }
    proof {
        assert(s@.skip(j6 as int).len() == 0);
    }
    let urls_ok = check_urls_match(&urls, &downs);
    if !urls_ok {
        proof {
            assert(exists|k: int|
                0 <= k < dn && ((#[trigger] urls@[k]).0@, urls@[k].1@) != (
                downs@[k]@.url,
                downs@[k]@.file_id,
                ));
            let k = choose|k: int|
                0 <= k < dn && ((#[trigger] urls@[k]).0@, urls@[k].1@) != (
                downs@[k]@.url,
                downs@[k]@.file_id,
                );
            assert(urls_v[k] != (downs_v[k].url, downs_v[k].file_id));
            assert(p_record(s@) is None);
        }
        return None;
    }
    proof {
        assert forall|k: int| 0 <= k < dn implies #[trigger] urls_v[k] == (
        downs_v[k].url,
        downs_v[k].file_id,
        ) by {
            assert(((urls@[k]).0@, urls@[k].1@) == (downs@[k]@.url, downs@[k]@.file_id));
        }
    }
    let syms_ok = check_syms_match(&syms, &downs);
    if !syms_ok {
        proof {
            assert(exists|k: int|
                0 <= k < dn && (#[trigger] syms@[k]).0@ != downs@[k]@.file_id);
            let k = choose|k: int|
                0 <= k < dn && (#[trigger] syms@[k]).0@ != downs@[k]@.file_id;
            assert(syms_v[k].0 != downs_v[k].file_id);
            assert(p_record(s@) is None);
        }
        return None;
    }
    proof {
        assert forall|k: int| 0 <= k < dn implies (#[trigger] syms_v[k]).0
            == downs_v[k].file_id by {
            assert(syms@[k].0@ == downs@[k]@.file_id);
        }
    }
    let out = build_tasks(&downs, &syms);
    proof {
        assert(out@.map_values(|t: DownloadTask| t@) =~= ts);
    }
    let ids_ok = check_ids_unique(&out);
    if !ids_ok {
        proof {
            let (i, j): (int, int) = choose|i: int, j: int|
                0 <= i < j < out@.len() && (#[trigger] out@[i])@.file_id == (
                #[trigger] out@[j])@.file_id;
            assert(ts[i].file_id == ts[j].file_id);
            assert(!tasks_wf(ts));
            assert(p_record(s@) is None);
        }
        return None;
    }
    let urls2_ok = check_urls_unique(&out);
    if !urls2_ok {
        proof {
            let (i, j): (int, int) = choose|i: int, j: int|
                0 <= i < j < out@.len() && (#[trigger] out@[i])@.url == (#[trigger] out@[j])@.url;
            assert(ts[i].url == ts[j].url);
            assert(!tasks_wf(ts));
            assert(p_record(s@) is None);
        }
        return None;
    }
    let dirs_ok = check_dirs_unique(&out);
    if !dirs_ok {
        proof {
            let i = choose|i: int|
                0 <= i < out@.len() && !(forall|a: int, b: int|
                    0 <= a < b < (#[trigger] out@[i])@.dirs.len() ==> out@[i]@.dirs[a]
                        != out@[i]@.dirs[b]);
            let (a, b): (int, int) = choose|a: int, b: int|
                0 <= a < b < out@[i]@.dirs.len() && out@[i]@.dirs[a] == out@[i]@.dirs[b];
            assert(ts[i].dirs[a] == ts[i].dirs[b]);
            assert(!tasks_wf(ts));
            assert(p_record(s@) is None);
        }
        return None;
    }
    proof {
        assert forall|i: int, j: int| 0 <= i < j < ts.len() implies (#[trigger] ts[i]).file_id != (
        #[trigger] ts[j]).file_id by {
            assert(out@[i]@.file_id != out@[j]@.file_id);
        }
        assert forall|i: int, j: int| 0 <= i < j < ts.len() implies (#[trigger] ts[i]).url != (
        #[trigger] ts[j]).url by {
            assert(out@[i]@.url != out@[j]@.url);
        }
        assert forall|i: int| 0 <= i < ts.len() implies forall|a: int, b: int|
            0 <= a < b < (#[trigger] ts[i]).dirs.len() ==> ts[i].dirs[a] != ts[i].dirs[b] by {
            assert(forall|a: int, b: int|
                0 <= a < b < (#[trigger] out@[i])@.dirs.len() ==> out@[i]@.dirs[a]
                    != out@[i]@.dirs[b]);
            assert(out@[i]@ == ts[i]);
        }
        assert(tasks_wf(ts));
        assert(p_record(s@) == Some(ts));
    }
    Some(out)
}

fn check_urls_match(urls: &Vec<(String, String)>, downs: &Vec<DownloadTask>) -> (r: bool)
    requires
        urls@.len() == downs@.len(),
    ensures
        r == (forall|k: int|
            0 <= k < downs@.len() ==> ((#[trigger] urls@[k]).0@, urls@[k].1@) == (
            (#[trigger] downs@[k])@.url,
            downs@[k]@.file_id,
            )),
{
    let dn = downs.len();
    let mut i: usize = 0;
    while i < dn
        invariant
            0 <= i <= dn,
            dn == downs@.len() == urls@.len(),
            forall|k: int|
                0 <= k < i ==> ((#[trigger] urls@[k]).0@, urls@[k].1@) == (
                (#[trigger] downs@[k])@.url,
                downs@[k]@.file_id,
                ),
        decreases dn - i,
    {
        let ok = urls[i].0 == *downs[i].url() && urls[i].1 == *downs[i].file_id();
        if !ok {
            return false;
        }
        i = i + 1;
    }
    true
}

fn check_syms_match(syms: &Vec<(String, Vec<String>)>, downs: &Vec<DownloadTask>) -> (r: bool)
    requires
        syms@.len() == downs@.len(),
    ensures
        r == (forall|k: int|
            0 <= k < downs@.len() ==> (#[trigger] syms@[k]).0@ == (
            #[trigger] downs@[k])@.file_id),
{
    let dn = downs.len();
    let mut i: usize = 0;
    while i < dn
        invariant
            0 <= i <= dn,
            dn == downs@.len() == syms@.len(),
            forall|k: int|
                0 <= k < i ==> (#[trigger] syms@[k]).0@ == (#[trigger] downs@[k])@.file_id,
        decreases dn - i,
    {
        if !(syms[i].0 == *downs[i].file_id()) {
            return false;
        }
        i = i + 1;
    }
    true
}

fn build_tasks(downs: &Vec<DownloadTask>, syms: &Vec<(String, Vec<String>)>) -> (out: Vec<
    DownloadTask,
>)
    requires
        syms@.len() == downs@.len(),
    ensures
        out@.len() == downs@.len(),
        forall|k: int|
            0 <= k < downs@.len() ==> (#[trigger] out@[k])@ == (DownloadTaskView {
                dirs: syms@[k].1@.map_values(|d: String| d@),
                ..downs@[k]@
            }),
{
    let dn = downs.len();
    let mut out: Vec<DownloadTask> = Vec::new();
    let mut i: usize = 0;
    while i < dn
        invariant
            0 <= i <= dn,
            dn == downs@.len() == syms@.len(),
            out@.len() == i,
            forall|k: int|
                0 <= k < i ==> (#[trigger] out@[k])@ == (DownloadTaskView {
                    dirs: syms@[k].1@.map_values(|d: String| d@),
                    ..downs@[k]@
                }),
        decreases dn - i,
    {
        let t = &downs[i];
        let dirs = clone_strings(&syms[i].1);
        let built = DownloadTask::from_parts(
            t.url().clone(),
            t.downloadable_url().clone(),
            t.status(),
            t.file_id().clone(),
            dirs,
        );
        out.push(built);
        i = i + 1;
    }
    out
}

/// Reads the record file's text and rebuilds the index; anything that is not
/// a well-formed record yields the empty index, the way a corrupt file does
/// at startup. The in-flight table starts empty.
pub fn load_record(s: &str) -> (r: DownloadState)
    ensures
        crate::download::cache_wf(r@),
        r@.inflight == Seq::<Seq<char>>::empty(),
        p_record(s@) matches Some(ts) ==> r@.tasks == ts,
        p_record(s@) is None ==> r@.tasks == Seq::<DownloadTaskView>::empty(),
{
    match parse_record(s) {
        Some(tasks) => {
            proof {
                let q = p_record(s@)->0;
                assert(tasks_wf(q));
                assert forall|i: int, j: int|
                    0 <= i < j < tasks@.len() implies (#[trigger] tasks@[i])@.file_id != (
                #[trigger] tasks@[j])@.file_id by {
                    assert(q[i] == tasks@[i]@ && q[j] == tasks@[j]@);
                }
                assert forall|i: int, j: int|
                    0 <= i < j < tasks@.len() implies (#[trigger] tasks@[i])@.url != (
                #[trigger] tasks@[j])@.url by {
                    assert(q[i] == tasks@[i]@ && q[j] == tasks@[j]@);
                }
                assert forall|i: int|
                    0 <= i < tasks@.len() implies forall|a: int, b: int|
                    0 <= a < b < (#[trigger] tasks@[i])@.dirs.len() ==> tasks@[i]@.dirs[a]
                        != tasks@[i]@.dirs[b] by {
                    assert(q[i] == tasks@[i]@);
                }
            }
            DownloadState::from_tasks(tasks)
        },
        None => DownloadState::new(),
    }
}

} // verus!

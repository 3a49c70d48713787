//! The persisted form of the ledger: a JSON document
//! `{"entries":[{"user":...,"command":...,"score":...,"success":...,"health":...,"timestamp":...},...]}`.
//! Rendering and parsing are defined as spec functions over character
//! sequences; the executable encoder and decoder are proved to match them,
//! and decoding a rendered ledger is proved to give back the same entries.
//! The document has one canonical compact form; loading accepts exactly that
//! form, and callers treat anything else as absent data.

use crate::ledger::{models, wf_entries, wf_entry, Entry, EntryModel, Ledger};
use crate::sys;
use vstd::prelude::*;
use vstd::string::*;

verus! {

// ---------------------------------------------------------------------------
// Rendering, at the spec level.
// ---------------------------------------------------------------------------
pub open spec fn is_digit(c: char) -> bool {
    48 <= c as u32 && c as u32 <= 57
}

pub open spec fn digit_val(c: char) -> int {
    c as u32 - 48
}

pub open spec fn digit_char(d: int) -> char {
    ((48 + d) as u8) as char
}

/// The decimal rendering of a number, most significant digit first.
pub open spec fn ren_u64(n: u64) -> Seq<char>
    decreases n,
{
    if n < 10 {
        seq![digit_char(n as int)]
    } else {
        ren_u64(n / 10).push(digit_char((n % 10) as int))
    }
}

/// Quotes and backslashes are escaped with a backslash; every other
/// character stands for itself.
pub open spec fn esc_char(c: char) -> Seq<char> {
    if c == '"' || c == '\\' {
        seq!['\\', c]
    } else {
        seq![c]
    }
}

pub open spec fn esc(s: Seq<char>) -> Seq<char>
    decreases s.len(),
{
    if s.len() == 0 {
        Seq::empty()
    } else {
        esc_char(s[0]) + esc(s.skip(1))
    }
}

/// A string field: the escaped text between double quotes.
pub open spec fn ren_string(s: Seq<char>) -> Seq<char> {
    seq!['"'] + esc(s) + seq!['"']
}

pub open spec fn ren_bool(b: bool) -> Seq<char> {
    if b {
        "true"@
    } else {
        "false"@
    }
}

/// One entry as a JSON object with its six fields, in a fixed order.
pub open spec fn ren_entry(e: EntryModel) -> Seq<char> {
    "{\"user\":"@ + ren_string(e.user) + ",\"command\":"@ + ren_string(e.command) + ",\"score\":"@
        + ren_u64(e.score as u64) + ",\"success\":"@ + ren_bool(e.success) + ",\"health\":"@
        + ren_u64(e.health as u64) + ",\"timestamp\":"@ + ren_u64(e.timestamp) + "}"@
}

pub open spec fn ren_entries_rest(l: Seq<EntryModel>) -> Seq<char>
    decreases l.len(),
{
    if l.len() == 0 {
        Seq::empty()
    } else {
        seq![','] + ren_entry(l[0]) + ren_entries_rest(l.skip(1))
    }
}

/// The comma-separated list of entries.
pub open spec fn ren_entries(l: Seq<EntryModel>) -> Seq<char> {
    if l.len() == 0 {
        Seq::empty()
    } else {
        ren_entry(l[0]) + ren_entries_rest(l.skip(1))
    }
}

/// The whole document.
pub open spec fn spec_render(l: Seq<EntryModel>) -> Seq<char> {
    "{\"entries\":["@ + ren_entries(l) + "]}"@
}

// ---------------------------------------------------------------------------
// The executable encoder.
// ---------------------------------------------------------------------------
fn write_u64(out: &mut String, n: u64)
    ensures
        final(out)@ == old(out)@ + ren_u64(n),
    decreases n,
{
    if n < 10 {
        sys::push_char(out, (48 + (n as u8)) as char);
        proof {
            assert(final(out)@ =~= old(out)@ + ren_u64(n));
        }
    } else {
        write_u64(out, n / 10);
        sys::push_char(out, (48 + ((n % 10) as u8)) as char);
        proof {
            assert(final(out)@ =~= old(out)@ + ren_u64(n));
        }
    }
}

/// Escaping commutes with extending the text by one character.
proof fn lemma_esc_push(t: Seq<char>, c: char)
    ensures
        esc(t.push(c)) == esc(t) + esc_char(c),
    decreases t.len(),
{
    if t.len() == 0 {
        assert(t.push(c) =~= seq![c]);
        assert(seq![c].skip(1) =~= Seq::<char>::empty());
        assert(esc(Seq::<char>::empty()) =~= Seq::<char>::empty());
        assert(esc(seq![c]) == esc_char(c) + esc(seq![c].skip(1)));
        assert(esc(t.push(c)) =~= esc(t) + esc_char(c));
    } else {
        assert(t.push(c).skip(1) =~= t.skip(1).push(c));
        lemma_esc_push(t.skip(1), c);
        assert(esc(t.push(c)) =~= esc(t) + esc_char(c));
    }
}

fn write_string(out: &mut String, s: &str)
    ensures
        final(out)@ == old(out)@ + ren_string(s@),
{
    let len = s.unicode_len();
    sys::push_char(out, '"');
    let ghost base = out@;
    proof {
        assert(esc(s@.take(0)) =~= Seq::<char>::empty());
        assert(base =~= base + esc(s@.take(0)));
    }
    let mut i: usize = 0;
    while i < len
        invariant
            i <= len,
            len == s@.len(),
            out@ == base + esc(s@.take(i as int)),
        decreases len - i,
    {
        let c = s.get_char(i);
        if c == '"' || c == '\\' {
            sys::push_char(out, '\\');
            sys::push_char(out, c);
        } else {
            sys::push_char(out, c);
        }
        proof {
            lemma_esc_push(s@.take(i as int), c);
            assert(s@.take(i as int).push(c) =~= s@.take(i + 1));
            assert(out@ =~= base + esc(s@.take(i + 1)));
        }
        i += 1;
    }
    sys::push_char(out, '"');
    proof {
        assert(s@.take(len as int) =~= s@);
        assert(out@ =~= old(out)@ + ren_string(s@));
    }
}

fn write_bool(out: &mut String, b: bool)
    ensures
        final(out)@ == old(out)@ + ren_bool(b),
{
    if b {
        out.append("true");
    } else {
        out.append("false");
    }
}

#[verifier::rlimit(60)]
fn write_entry(out: &mut String, e: &Entry)
    requires
        wf_entry(e@),
    ensures
        final(out)@ == old(out)@ + ren_entry(e@),
{
    out.append("{\"user\":");
    write_string(out, e.user.as_str());
    out.append(",\"command\":");
    write_string(out, e.command.as_str());
    out.append(",\"score\":");
    write_u64(out, e.score as u64);
    out.append(",\"success\":");
    write_bool(out, e.success);
    out.append(",\"health\":");
    write_u64(out, e.health as u64);
    out.append(",\"timestamp\":");
    write_u64(out, e.timestamp);
    out.append("}");
    proof {
        assert(final(out)@ =~= old(out)@ + ren_entry(e@));
    }
}

fn write_entries_rest(out: &mut String, entries: &Vec<Entry>, i: usize)
    requires
        0 < i <= entries@.len(),
        wf_entries(models(entries@)),
    ensures
        final(out)@ == old(out)@ + ren_entries_rest(models(entries@.skip(i as int - 1)).skip(1)),
    decreases entries@.len() - i,
{
    if i < entries.len() {
        sys::push_char(out, ',');
        proof {
            assert(wf_entry(models(entries@)[i as int]));
        }
        write_entry(out, &entries[i]);
        write_entries_rest(out, entries, i + 1);
        proof {
            let l = models(entries@.skip(i as int - 1)).skip(1);
            assert(l[0] == entries@[i as int]@);
            assert(l.skip(1) =~= models(entries@.skip(i as int)).skip(1));
            assert(final(out)@ =~= old(out)@ + ren_entries_rest(l));
        }
    } else {
        proof {
            assert(models(entries@.skip(i as int - 1)).skip(1) =~= Seq::<EntryModel>::empty());
        }
    }
}

// ---------------------------------------------------------------------------
// Parsing, at the spec level. Each function consumes a prefix of the input
// and yields the parsed value with the unconsumed suffix, or nothing.
// ---------------------------------------------------------------------------
pub open spec fn px_lit(s: Seq<char>, lit: Seq<char>) -> Option<Seq<char>> {
    if lit.len() <= s.len() && s.take(lit.len() as int) == lit {
        Some(s.skip(lit.len() as int))
    } else {
        None
    }
}

pub open spec fn px_digits(s: Seq<char>, acc: u64) -> Option<(u64, Seq<char>)>
    decreases s.len(),
{
    if s.len() > 0 && is_digit(s[0]) {
        if acc * 10 + digit_val(s[0]) <= u64::MAX {
            px_digits(s.skip(1), (acc * 10 + digit_val(s[0])) as u64)
        } else {
            None
        }
    } else {
        Some((acc, s))
    }
}

pub open spec fn px_u64(s: Seq<char>) -> Option<(u64, Seq<char>)> {
    if s.len() > 0 && is_digit(s[0]) {
        px_digits(s, 0)
    } else {
        None
    }
}

pub open spec fn px_string_body(s: Seq<char>, acc: Seq<char>) -> Option<(Seq<char>, Seq<char>)>
    decreases s.len(),
{
    if s.len() == 0 {
        None
    } else if s[0] == '"' {
        Some((acc, s.skip(1)))
    } else if s[0] == '\\' {
        if s.len() >= 2 && (s[1] == '"' || s[1] == '\\') {
            px_string_body(s.skip(2), acc.push(s[1]))
        } else {
            None
        }
    } else {
        px_string_body(s.skip(1), acc.push(s[0]))
    }
}

pub open spec fn px_string(s: Seq<char>) -> Option<(Seq<char>, Seq<char>)> {
    if s.len() > 0 && s[0] == '"' {
        px_string_body(s.skip(1), Seq::empty())
    } else {
        None
    }
}

pub open spec fn px_bool(s: Seq<char>) -> Option<(bool, Seq<char>)> {
    match px_lit(s, "true"@) {
        Some(r) => Some((true, r)),
        None => match px_lit(s, "false"@) {
            Some(r) => Some((false, r)),
            None => None,
        },
    }
}

pub open spec fn px_entry(s: Seq<char>) -> Option<(EntryModel, Seq<char>)> {
    match px_lit(s, "{\"user\":"@) {
        None => None,
        Some(s1) => match px_string(s1) {
            None => None,
            Some((user, s2)) => match px_lit(s2, ",\"command\":"@) {
                None => None,
                Some(s3) => match px_string(s3) {
                    None => None,
                    Some((command, s4)) => match px_lit(s4, ",\"score\":"@) {
                        None => None,
                        Some(s5) => match px_u64(s5) {
                            None => None,
                            Some((score, s6)) => if score > u32::MAX as u64 {
                                None
                            } else {
                                match px_lit(s6, ",\"success\":"@) {
                                    None => None,
                                    Some(s7) => match px_bool(s7) {
                                        None => None,
                                        Some((success, s8)) => match px_lit(s8, ",\"health\":"@) {
                                            None => None,
                                            Some(s9) => match px_u64(s9) {
                                                None => None,
                                                Some((health, s10)) => if health > 100 {
                                                    None
                                                } else {
                                                    match px_lit(s10, ",\"timestamp\":"@) {
                                                        None => None,
                                                        Some(s11) => match px_u64(s11) {
                                                            None => None,
                                                            Some((timestamp, s12)) => match px_lit(
                                                                s12,
                                                                "}"@,
                                                            ) {
                                                                None => None,
                                                                Some(s13) => Some(
                                                                    (
                                                                        EntryModel {
                                                                            user,
                                                                            command,
                                                                            score: score as u32,
                                                                            success,
                                                                            health: health as i32,
                                                                            timestamp,
                                                                        },
                                                                        s13,
                                                                    ),
                                                                ),
                                                            },
                                                        },
                                                    }
                                                },
                                            },
                                        },
                                    },
                                }
                            },
                        },
                    },
                },
            },
        },
    }
}

pub open spec fn px_entries_rest(s: Seq<char>, acc: Seq<EntryModel>) -> Option<
    (Seq<EntryModel>, Seq<char>),
>
    decreases s.len(),
{
    if s.len() > 0 && s[0] == ',' {
        match px_entry(s.skip(1)) {
            None => None,
            Some((e, s2)) => if s2.len() < s.len() {
                px_entries_rest(s2, acc.push(e))
            } else {
                None
            },
        }
    } else {
        Some((acc, s))
    }
}

pub open spec fn px_entries(s: Seq<char>) -> Option<(Seq<EntryModel>, Seq<char>)> {
    if s.len() > 0 && s[0] == '{' {
        match px_entry(s) {
            None => None,
            Some((e, s2)) => if s2.len() < s.len() {
                px_entries_rest(s2, seq![e])
            } else {
                None
            },
        }
    } else {
        Some((Seq::empty(), s))
    }
}

/// The whole document; nothing may follow it.
pub open spec fn spec_parse(s: Seq<char>) -> Option<Seq<EntryModel>> {
    match px_lit(s, "{\"entries\":["@) {
        None => None,
        Some(s1) => match px_entries(s1) {
            None => None,
            Some((l, s2)) => match px_lit(s2, "]}"@) {
                None => None,
                Some(s3) => if s3.len() == 0 {
                    Some(l)
                } else {
                    None
                },
            },
        },
    }
}

// ---------------------------------------------------------------------------
// The executable decoder: each function returns exactly what its spec-level
// counterpart says on the input from the given position on.
// ---------------------------------------------------------------------------
fn chars_of(s: &str) -> (v: Vec<char>)
    ensures
        v@ == s@,
{
    let len = s.unicode_len();
    let mut v: Vec<char> = Vec::new();
    let mut i: usize = 0;
    while i < len
        invariant
            i <= len,
            len == s@.len(),
            v@ =~= s@.take(i as int),
        decreases len - i,
    {
        v.push(s.get_char(i));
        i += 1;
    }
    proof {
        assert(s@.take(len as int) =~= s@);
    }
    v
}

fn pf_lit(v: &Vec<char>, i: usize, lit: &str) -> (r: Option<usize>)
    requires
        i <= v@.len(),
    ensures
        match r {
            Some(j) => i <= j <= v@.len() && j == i + lit@.len() && px_lit(
                v@.skip(i as int),
                lit@,
            ) == Some(v@.skip(j as int)),
            None => px_lit(v@.skip(i as int), lit@) is None,
        },
{
    let l = lit.unicode_len();
    let n = v.len();
    if n - i < l {
        return None;
    }
    let mut j: usize = 0;
    while j < l
        invariant
            j <= l,
            l == lit@.len(),
            n == v@.len(),
            i + l <= n,
            forall|k: int| 0 <= k < j ==> v@[i + k] == lit@[k],
        decreases l - j,
    {
        if v[i + j] != lit.get_char(j) {
            proof {
                assert(v@.skip(i as int).take(l as int)[j as int] != lit@[j as int]);
            }
            return None;
        }
        j += 1;
    }
    proof {
        assert(v@.skip(i as int).take(l as int) =~= lit@);
        assert(v@.skip(i as int).skip(l as int) =~= v@.skip(i + l));
    }
    Some(i + l)
}

fn pf_u64(v: &Vec<char>, i: usize) -> (r: Option<(u64, usize)>)
    requires
        i <= v@.len(),
    ensures
        match r {
            Some((x, j)) => i <= j <= v@.len() && px_u64(v@.skip(i as int)) == Some(
                (x, v@.skip(j as int)),
            ),
            None => px_u64(v@.skip(i as int)) is None,
        },
{
    if i == v.len() {
        return None;
    }
    let c0 = v[i] as u32;
    if !(48 <= c0 && c0 <= 57) {
        return None;
    }
    let mut acc: u64 = 0;
    let mut j: usize = i;
    while j < v.len() && 48 <= (v[j] as u32) && (v[j] as u32) <= 57
        invariant
            i <= j <= v@.len(),
            px_digits(v@.skip(i as int), 0) == px_digits(v@.skip(j as int), acc),
        decreases v@.len() - j,
    {
        let d = ((v[j] as u32) - 48) as u64;
        let next = match acc.checked_mul(10) {
            Some(p) => match p.checked_add(d) {
                Some(n) => n,
                None => {
                    return None;
                },
            },
            None => {
                return None;
            },
        };
        proof {
            assert(v@.skip(j as int).skip(1) =~= v@.skip(j + 1));
        }
        acc = next;
        j += 1;
    }
    Some((acc, j))
}

fn pf_string(v: &Vec<char>, i: usize) -> (r: Option<(String, usize)>)
    requires
        i <= v@.len(),
    ensures
        match r {
            Some((x, j)) => i <= j <= v@.len() && px_string(v@.skip(i as int)) == Some(
                (x@, v@.skip(j as int)),
            ),
            None => px_string(v@.skip(i as int)) is None,
        },
{
    if i == v.len() || v[i] != '"' {
        return None;
    }
    let mut acc = String::new();
    let mut j: usize = i + 1;
    proof {
        assert(v@.skip(i as int).skip(1) =~= v@.skip(i + 1));
    }
    while j < v.len()
        invariant
            i + 1 <= j <= v@.len(),
            px_string(v@.skip(i as int)) == px_string_body(v@.skip(j as int), acc@),
        decreases v@.len() - j,
    {
        let c = v[j];
        if c == '"' {
            proof {
                assert(v@.skip(j as int).skip(1) =~= v@.skip(j + 1));
            }
            return Some((acc, j + 1));
        }
        if c == '\\' {
            if j + 1 == v.len() {
                return None;
            }
            let c2 = v[j + 1];
            if c2 == '"' || c2 == '\\' {
                proof {
                    assert(v@.skip(j as int)[1] == v@[j + 1]);
                    assert(v@.skip(j as int).skip(2) =~= v@.skip(j + 2));
                }
                sys::push_char(&mut acc, c2);
                j += 2;
            } else {
                return None;
            }
        } else {
            proof {
                assert(v@.skip(j as int).skip(1) =~= v@.skip(j + 1));
            }
            sys::push_char(&mut acc, c);
            j += 1;
        }
    }
    None
}

fn pf_bool(v: &Vec<char>, i: usize) -> (r: Option<(bool, usize)>)
    requires
        i <= v@.len(),
    ensures
        match r {
            Some((x, j)) => i <= j <= v@.len() && px_bool(v@.skip(i as int)) == Some(
                (x, v@.skip(j as int)),
            ),
            None => px_bool(v@.skip(i as int)) is None,
        },
{
    match pf_lit(v, i, "true") {
        Some(j) => Some((true, j)),
        None => match pf_lit(v, i, "false") {
            Some(j) => Some((false, j)),
            None => None,
        },
    }
}

#[verifier::rlimit(60)]
fn pf_entry(v: &Vec<char>, i: usize) -> (r: Option<(Entry, usize)>)
    requires
        i <= v@.len(),
    ensures
        match r {
            Some((e, j)) => i < j <= v@.len() && px_entry(v@.skip(i as int)) == Some(
                (e@, v@.skip(j as int)),
            ) && wf_entry(e@),
            None => px_entry(v@.skip(i as int)) is None,
        },
{
    let j1 = match pf_lit(v, i, "{\"user\":") {
        Some(j) => j,
        None => {
            return None;
        },
    };
    proof {
        reveal_strlit("{\"user\":");
    }
    let (user, j2) = match pf_string(v, j1) {
        Some(p) => p,
        None => {
            return None;
        },
    };
    let j3 = match pf_lit(v, j2, ",\"command\":") {
        Some(j) => j,
        None => {
            return None;
        },
    };
    let (command, j4) = match pf_string(v, j3) {
        Some(p) => p,
        None => {
            return None;
        },
    };
    let j5 = match pf_lit(v, j4, ",\"score\":") {
        Some(j) => j,
        None => {
            return None;
        },
    };
    let (score, j6) = match pf_u64(v, j5) {
        Some(p) => p,
        None => {
            return None;
        },
    };
    if score > u32::MAX as u64 {
        return None;
    }
    let j7 = match pf_lit(v, j6, ",\"success\":") {
        Some(j) => j,
        None => {
            return None;
        },
    };
    let (success, j8) = match pf_bool(v, j7) {
        Some(p) => p,
        None => {
            return None;
        },
    };
    let j9 = match pf_lit(v, j8, ",\"health\":") {
        Some(j) => j,
        None => {
            return None;
        },
    };
    let (health, j10) = match pf_u64(v, j9) {
        Some(p) => p,
        None => {
            return None;
        },
    };
    if health > 100 {
        return None;
    }
    let j11 = match pf_lit(v, j10, ",\"timestamp\":") {
        Some(j) => j,
        None => {
            return None;
        },
    };
    let (timestamp, j12) = match pf_u64(v, j11) {
        Some(p) => p,
        None => {
            return None;
        },
    };
    let j13 = match pf_lit(v, j12, "}") {
        Some(j) => j,
        None => {
            return None;
        },
    };
    let e = Entry {
        user,
        command,
        score: score as u32,
        success,
        health: health as i32,
        timestamp,
    };
    proof {
        let m = px_entry(v@.skip(i as int)).unwrap().0;
        assert(e@ =~= m);
    }
    Some((e, j13))
}

/// Decodes a persisted document. A string that is not a rendered ledger is
/// rejected; a decoded ledger is well formed and is exactly what the
/// spec-level parser yields.
pub fn from_json(s: &str) -> (r: Option<Ledger>)
    ensures
        match r {
            Some(l) => spec_parse(s@) == Some(l@) && l.wf(),
            None => spec_parse(s@) is None,
        },
{
    let v = chars_of(s);
    proof {
        assert(v@.skip(0) =~= v@);
    }
    let mut i = match pf_lit(&v, 0, "{\"entries\":[") {
        Some(j) => j,
        None => {
            return None;
        },
    };
    let ghost s1 = v@.skip(i as int);
    let mut out: Vec<Entry> = Vec::new();
    if i < v.len() && v[i] == '{' {
        match pf_entry(&v, i) {
            Some((e, j)) => {
                out.push(e);
                i = j;
            },
            None => {
                return None;
            },
        }
        proof {
            assert(models(out@) =~= seq![out@[0]@]);
        }
        while i < v.len() && v[i] == ','
            invariant
                i <= v@.len(),
                v@ == s@,
                px_lit(s@, "{\"entries\":["@) == Some(s1),
                px_entries(s1) == px_entries_rest(v@.skip(i as int), models(out@)),
                wf_entries(models(out@)),
            decreases v@.len() - i,
        {
            let ghost out_before = models(out@);
            match pf_entry(&v, i + 1) {
                Some((e, j)) => {
                    proof {
                        assert(v@.skip(i as int).skip(1) =~= v@.skip(i + 1));
                    }
                    out.push(e);
                    proof {
                        assert(models(out@) =~= out_before.push(e@));
                    }
                    i = j;
                },
                None => {
                    proof {
                        assert(v@.skip(i as int).skip(1) =~= v@.skip(i as int + 1));
                        assert(px_entries_rest(v@.skip(i as int), models(out@)) is None);
                    }
                    return None;
                },
            }
        }
    } else {
        proof {
            assert(models(out@) =~= Seq::<EntryModel>::empty());
        }
    }
    match pf_lit(&v, i, "]}") {
        Some(j) => {
            if j == v.len() {
                let l = Ledger { entries: out };
                proof {
                    assert(v@.skip(j as int) =~= Seq::<char>::empty());
                }
                Some(l)
            } else {
                None
            }
        },
        None => None,
    }
}

// ---------------------------------------------------------------------------
// The round trip: parsing a rendered document gives back the same entries.
// ---------------------------------------------------------------------------
pub open spec fn pow10(k: nat) -> int
    decreases k,
{
    if k == 0 {
        1
    } else {
        10 * pow10((k - 1) as nat)
    }
}

proof fn lemma_pow10_pos(k: nat)
    ensures
        pow10(k) >= 1,
    decreases k,
{
    if k > 0 {
        lemma_pow10_pos((k - 1) as nat);
    }
}

proof fn lemma_digit_char(d: int)
    requires
        0 <= d <= 9,
    ensures
        is_digit(digit_char(d)),
        digit_val(digit_char(d)) == d,
{
}

proof fn lemma_ren_u64_first(n: u64)
    ensures
        ren_u64(n).len() >= 1,
        is_digit(ren_u64(n)[0]),
    decreases n,
{
    if n < 10 {
        lemma_digit_char(n as int);
    } else {
        lemma_ren_u64_first(n / 10);
        assert(ren_u64(n)[0] == ren_u64(n / 10)[0]);
    }
}

/// Consuming the decimal digits of `n` multiplies the accumulator by the
/// matching power of ten and adds `n`.
proof fn lemma_px_digits(n: u64, a: u64, rest: Seq<char>)
    requires
        a * pow10(ren_u64(n).len() as nat) + n <= u64::MAX,
    ensures
        px_digits(ren_u64(n) + rest, a) == px_digits(
            rest,
            (a * pow10(ren_u64(n).len() as nat) + n) as u64,
        ),
    decreases n,
{
    let l = ren_u64(n).len() as nat;
    lemma_pow10_pos(l);
    if n < 10 {
        lemma_digit_char(n as int);
        let s = ren_u64(n) + rest;
        assert(s[0] == digit_char(n as int));
        assert(l == 1);
        assert(pow10(0) == 1);
        assert(pow10(1) == 10);
        assert(s.skip(1) =~= rest);
        assert(px_digits(s, a) == px_digits(rest, (a * 10 + n) as u64));
    } else {
        let q = n / 10;
        let r = n % 10;
        vstd::arithmetic::div_mod::lemma_fundamental_div_mod(n as int, 10);
        assert(n == 10 * q + r);
        lemma_digit_char(r as int);
        let dc = digit_char(r as int);
        assert(ren_u64(n) == ren_u64(q).push(dc));
        let l1 = ren_u64(q).len() as nat;
        assert(l == l1 + 1);
        assert(pow10(l) == 10 * pow10(l1));
        lemma_pow10_pos(l1);
        let rest1 = seq![dc] + rest;
        assert(ren_u64(n) + rest =~= ren_u64(q) + rest1);
        let b = a * pow10(l1) + q;
        assert(10 * b + r == a * pow10(l) + n) by (nonlinear_arith)
            requires
                pow10(l) == 10 * pow10(l1),
                b == a * pow10(l1) + q,
                n == 10 * q + r,
        ;
        assert(0 <= b && b <= u64::MAX) by (nonlinear_arith)
            requires
                10 * b + r == a * pow10(l) + n,
                a * pow10(l) + n <= u64::MAX,
                0 <= r < 10,
                a >= 0,
                q >= 0,
                pow10(l1) >= 1,
                b == a * pow10(l1) + q,
        ;
        lemma_px_digits(q, a, rest1);
        assert(px_digits(ren_u64(n) + rest, a) == px_digits(rest1, b as u64));
        assert(rest1[0] == dc);
        assert(rest1.skip(1) =~= rest);
        assert(px_digits(rest1, b as u64) == px_digits(rest, (b * 10 + r) as u64));
        assert((b * 10 + r) as u64 == (a * pow10(l) + n) as u64);
    }
}

/// A rendered number followed by anything that is not a digit parses back to
/// the same number.
proof fn lemma_rt_u64(n: u64, rest: Seq<char>)
    requires
        rest.len() == 0 || !is_digit(rest[0]),
    ensures
        px_u64(ren_u64(n) + rest) == Some((n, rest)),
{
    lemma_ren_u64_first(n);
    let s = ren_u64(n) + rest;
    assert(s[0] == ren_u64(n)[0]);
    let l = ren_u64(n).len() as nat;
    lemma_pow10_pos(l);
    assert(0 * pow10(l) + n == n) by (nonlinear_arith);
    lemma_px_digits(n, 0, rest);
    assert(px_digits(s, 0) == px_digits(rest, n));
    assert(px_digits(rest, n) == Some((n, rest)));
}

/// A literal parses off the front of anything it prefixes.
proof fn lemma_rt_lit(lit: Seq<char>, rest: Seq<char>)
    ensures
        px_lit(lit + rest, lit) == Some(rest),
{
    let s = lit + rest;
    assert(s.take(lit.len() as int) =~= lit);
    assert(s.skip(lit.len() as int) =~= rest);
}

/// The escaped body of a string, up to its closing quote, parses back to the
/// original text appended to the accumulator.
proof fn lemma_px_body(t: Seq<char>, acc: Seq<char>, rest: Seq<char>)
    ensures
        px_string_body(esc(t) + seq!['"'] + rest, acc) == Some((acc + t, rest)),
    decreases t.len(),
{
    let s = esc(t) + seq!['"'] + rest;
    if t.len() == 0 {
        assert(s =~= seq!['"'] + rest);
        assert(s[0] == '"');
        assert(s.skip(1) =~= rest);
        assert(acc + t =~= acc);
    } else {
        let c = t[0];
        assert(esc(t) == esc_char(c) + esc(t.skip(1)));
        lemma_px_body(t.skip(1), acc.push(c), rest);
        assert(acc.push(c) + t.skip(1) =~= acc + t);
        if c == '"' || c == '\\' {
            assert(esc_char(c) == seq!['\\', c]);
            assert(s[0] == '\\');
            assert(s[1] == c);
            assert(s.len() >= 2);
            assert(s.skip(2) =~= esc(t.skip(1)) + seq!['"'] + rest);
            assert(px_string_body(s, acc) == px_string_body(s.skip(2), acc.push(c)));
        } else {
            assert(esc_char(c) == seq![c]);
            assert(s[0] == c);
            assert(s.skip(1) =~= esc(t.skip(1)) + seq!['"'] + rest);
            assert(px_string_body(s, acc) == px_string_body(s.skip(1), acc.push(c)));
        }
    }
}

/// A rendered string field parses back to the same text.
proof fn lemma_rt_string(t: Seq<char>, rest: Seq<char>)
    ensures
        px_string(ren_string(t) + rest) == Some((t, rest)),
{
    let s = ren_string(t) + rest;
    assert(s[0] == '"');
    assert(s.skip(1) =~= esc(t) + seq!['"'] + rest);
    lemma_px_body(t, Seq::empty(), rest);
    assert(Seq::<char>::empty() + t =~= t);
}

/// A rendered boolean parses back to the same value.
proof fn lemma_rt_bool(b: bool, rest: Seq<char>)
    ensures
        px_bool(ren_bool(b) + rest) == Some((b, rest)),
{
    let s = ren_bool(b) + rest;
    if b {
        lemma_rt_lit("true"@, rest);
    } else {
        lemma_rt_lit("false"@, rest);
        reveal_strlit("true");
        reveal_strlit("false");
        if 4 <= s.len() && s.take(4) == "true"@ {
            assert(s.take(4)[0] == s[0]);
            assert(s[0] == 'f');
            assert("true"@[0] == 't');
            assert(false);
        }
        assert(px_lit(s, "true"@) is None);
    }
}

/// A rendered entry parses back to the same entry.
#[verifier::rlimit(100)]
proof fn lemma_rt_entry(e: EntryModel, rest: Seq<char>)
    requires
        wf_entry(e),
    ensures
        px_entry(ren_entry(e) + rest) == Some((e, rest)),
{
    let t13 = rest;
    let t12 = "}"@ + t13;
    let t11 = ren_u64(e.timestamp) + t12;
    let t10 = ",\"timestamp\":"@ + t11;
    let t9 = ren_u64(e.health as u64) + t10;
    let t8 = ",\"health\":"@ + t9;
    let t7 = ren_bool(e.success) + t8;
    let t6 = ",\"success\":"@ + t7;
    let t5 = ren_u64(e.score as u64) + t6;
    let t4 = ",\"score\":"@ + t5;
    let t3 = ren_string(e.command) + t4;
    let t2 = ",\"command\":"@ + t3;
    let t1 = ren_string(e.user) + t2;
    let s = "{\"user\":"@ + t1;
    assert(ren_entry(e) + rest =~= s);
    reveal_strlit(",\"command\":");
    reveal_strlit(",\"score\":");
    reveal_strlit(",\"success\":");
    reveal_strlit(",\"health\":");
    reveal_strlit(",\"timestamp\":");
    reveal_strlit("}");
    lemma_rt_lit("{\"user\":"@, t1);
    lemma_rt_string(e.user, t2);
    lemma_rt_lit(",\"command\":"@, t3);
    lemma_rt_string(e.command, t4);
    lemma_rt_lit(",\"score\":"@, t5);
    assert(t6[0] == ',');
    lemma_rt_u64(e.score as u64, t6);
    lemma_rt_lit(",\"success\":"@, t7);
    lemma_rt_bool(e.success, t8);
    lemma_rt_lit(",\"health\":"@, t9);
    assert(t10[0] == ',');
    lemma_rt_u64(e.health as u64, t10);
    lemma_rt_lit(",\"timestamp\":"@, t11);
    assert(t12[0] == '}');
    lemma_rt_u64(e.timestamp, t12);
    lemma_rt_lit("}"@, t13);
    let parsed = EntryModel {
        user: e.user,
        command: e.command,
        score: ((e.score as u64) as u32),
        success: e.success,
        health: ((e.health as u64) as i32),
        timestamp: e.timestamp,
    };
    assert(parsed =~= e);
    assert(px_entry(s) == Some((e, rest)));
}

/// A rendered tail of the entry list parses back to the same entries,
/// appended to the accumulator, when what follows does not begin another
/// list element.
#[verifier::rlimit(100)]
proof fn lemma_rt_entries_rest(l: Seq<EntryModel>, acc: Seq<EntryModel>, rest: Seq<char>)
    requires
        wf_entries(l),
        rest.len() == 0 || rest[0] != ',',
    ensures
        px_entries_rest(ren_entries_rest(l) + rest, acc) == Some((acc + l, rest)),
    decreases l.len(),
{
    let s = ren_entries_rest(l) + rest;
    if l.len() == 0 {
        assert(s =~= rest);
        assert(acc + l =~= acc);
    } else {
        let tail = ren_entries_rest(l.skip(1)) + rest;
        assert(s =~= seq![','] + (ren_entry(l[0]) + tail));
        assert(s[0] == ',');
        assert(s.skip(1) =~= ren_entry(l[0]) + tail);
        assert(wf_entry(l[0]));
        lemma_rt_entry(l[0], tail);
        assert(px_entry(s.skip(1)) == Some((l[0], tail)));
        assert(tail.len() < s.len());
        assert(wf_entries(l.skip(1)));
        lemma_rt_entries_rest(l.skip(1), acc.push(l[0]), rest);
        assert(acc.push(l[0]) + l.skip(1) =~= acc + l);
    }
}

/// The round trip: a well-formed ledger, rendered and parsed again, gives
/// back the identical ordered sequence of entries.
#[verifier::rlimit(100)]
pub proof fn lemma_round_trip(l: Seq<EntryModel>)
    requires
        wf_entries(l),
    ensures
        spec_parse(spec_render(l)) == Some(l),
{
    let s = spec_render(l);
    reveal_strlit("{\"entries\":[");
    reveal_strlit("]}");
    let s1 = ren_entries(l) + "]}"@;
    assert(s =~= "{\"entries\":["@ + s1);
    lemma_rt_lit("{\"entries\":["@, s1);
    if l.len() == 0 {
        assert(s1 =~= "]}"@);
        assert(s1[0] == ']');
        assert(px_entries(s1) == Some((Seq::<EntryModel>::empty(), s1)));
        assert(s1 =~= "]}"@ + Seq::<char>::empty());
        lemma_rt_lit("]}"@, Seq::<char>::empty());
        assert(Seq::<EntryModel>::empty() =~= l);
    } else {
        let tail = ren_entries_rest(l.skip(1)) + "]}"@;
        assert(s1 =~= ren_entry(l[0]) + tail);
        assert(wf_entry(l[0]));
        lemma_rt_entry(l[0], tail);
        reveal_strlit("{\"user\":");
        assert(ren_entry(l[0])[0] == '{');
        assert(s1[0] == '{');
        assert(px_entry(s1) == Some((l[0], tail)));
        assert(tail.len() < s1.len());
        assert("]}"@[0] == ']');
        assert(wf_entries(l.skip(1)));
        lemma_rt_entries_rest(l.skip(1), seq![l[0]], "]}"@);
        assert(px_entries_rest(tail, seq![l[0]]) == Some((seq![l[0]] + l.skip(1), "]}"@)));
        assert(seq![l[0]] + l.skip(1) =~= l);
        assert(px_entries(s1) == Some((l, "]}"@)));
        assert("]}"@ =~= "]}"@ + Seq::<char>::empty());
        lemma_rt_lit("]}"@, Seq::<char>::empty());
    }
}

impl Ledger {
    /// The JSON document this ledger persists as.
    pub fn to_json(&self) -> (s: String)
        requires
            self.wf(),
        ensures
            s@ == spec_render(self@),
    {
        let mut out = "{\"entries\":[".to_owned();
        if self.entries.len() > 0 {
            proof {
                assert(wf_entry(self@[0]));
            }
            write_entry(&mut out, &self.entries[0]);
            write_entries_rest(&mut out, &self.entries, 1);
            proof {
                assert(models(self.entries@.skip(0)).skip(1) =~= self@.skip(1));
                assert(self@[0] == self.entries@[0]@);
            }
        }
        out.append("]}");
        proof {
            assert(out@ =~= spec_render(self@));
        }
        out
    }
}

} // verus!

use vstd::prelude::*;
use crate::model::{
    CapabilityModel, ModelView, VcpFeatureEntry, entries_view, lemma_upsert_absent,
    lemma_upsert_wf, table_upsert_from, table_wf,
};

verus! {

// ---------------------------------------------------------------------------
// Why a capability string is rejected.
// ---------------------------------------------------------------------------

/// Why a capability string was rejected: it held nothing but whitespace, or
/// its grouping was unbalanced / its `vcp(...)` group was missing.
#[derive(Debug, Clone, Copy, PartialEq, Eq, Structural)]
pub enum ParseError {
    Empty,
    Malformed,
}

// ---------------------------------------------------------------------------
// Character classes of the capability-string grammar.
// ---------------------------------------------------------------------------

pub open spec fn is_ws(b: u8) -> bool {
    b == 32 || b == 9 || b == 10 || b == 13
}

pub open spec fn is_name_byte(b: u8) -> bool {
    (97 <= b <= 122) || (65 <= b <= 90) || (48 <= b <= 57) || b == 95
}

pub open spec fn is_hex(b: u8) -> bool {
    (48 <= b <= 57) || (65 <= b <= 70) || (97 <= b <= 102)
}

/// The numeric value of one hexadecimal digit (digits are case-insensitive).
pub open spec fn hex_val(b: u8) -> int {
    if 48 <= b <= 57 {
        b - 48
    } else if 65 <= b <= 70 {
        b - 55
    } else {
        b - 87
    }
}

/// The byte spelled by the two hexadecimal digits at `i`, when both are there.
pub open spec fn hex_byte_at(s: Seq<u8>, i: int) -> Option<u8> {
    if 0 <= i && i + 1 < s.len() && is_hex(s[i]) && is_hex(s[i + 1]) {
        Some((hex_val(s[i]) * 16 + hex_val(s[i + 1])) as u8)
    } else {
        None
    }
}

// ---------------------------------------------------------------------------
// Scanning: where a run of same-class bytes ends.
// ---------------------------------------------------------------------------

/// The first position at or after `i` that holds no whitespace.
pub open spec fn ws_end(s: Seq<u8>, i: int) -> int
    decreases s.len() - i,
{
    if 0 <= i < s.len() && is_ws(s[i]) {
        ws_end(s, i + 1)
    } else {
        i
    }
}

/// The first position at or after `i` that holds no group-name byte.
pub open spec fn name_end(s: Seq<u8>, i: int) -> int
    decreases s.len() - i,
{
    if 0 <= i < s.len() && is_name_byte(s[i]) {
        name_end(s, i + 1)
    } else {
        i
    }
}

/// The first position at or after `i` holding a parenthesis (or the end):
/// where the raw content of a `model(...)` group stops.
pub open spec fn content_end(s: Seq<u8>, i: int) -> int
    decreases s.len() - i,
{
    if 0 <= i < s.len() && s[i] != 40 && s[i] != 41 {
        content_end(s, i + 1)
    } else {
        i
    }
}

pub proof fn lemma_name_end(s: Seq<u8>, i: int)
    ensures
        i <= name_end(s, i),
        i <= s.len() ==> name_end(s, i) <= s.len(),
    decreases s.len() - i,
{
    if 0 <= i < s.len() && is_name_byte(s[i]) {
        lemma_name_end(s, i + 1);
    }
}

pub proof fn lemma_content_end(s: Seq<u8>, i: int)
    ensures
        i <= content_end(s, i),
        i <= s.len() ==> content_end(s, i) <= s.len(),
    decreases s.len() - i,
{
    if 0 <= i < s.len() && s[i] != 40 && s[i] != 41 {
        lemma_content_end(s, i + 1);
    }
}

// ---------------------------------------------------------------------------
// Balanced-group skipping (for top-level groups the grammar ignores).
// ---------------------------------------------------------------------------

/// The position just after the parenthesis closing a group that is already
/// `depth` levels open at `i`, or `None` when the string ends first.
pub open spec fn group_end(s: Seq<u8>, i: int, depth: int) -> Option<int>
    decreases s.len() - i,
{
    if i < 0 || i >= s.len() {
        None
    } else if s[i] == 40 {
        group_end(s, i + 1, depth + 1)
    } else if s[i] == 41 {
        if depth <= 1 {
            Some(i + 1)
        } else {
            group_end(s, i + 1, depth - 1)
        }
    } else {
        group_end(s, i + 1, depth)
    }
}

pub proof fn lemma_group_end(s: Seq<u8>, i: int, depth: int)
    ensures
        match group_end(s, i, depth) {
            Some(k) => i < k <= s.len(),
            None => true,
        },
    decreases s.len() - i,
{
    if 0 <= i < s.len() {
        lemma_group_end(s, i + 1, depth + 1);
        lemma_group_end(s, i + 1, depth - 1);
        lemma_group_end(s, i + 1, depth);
    }
}

// ---------------------------------------------------------------------------
// The vcp(...) group: feature codes with optional value lists.
// ---------------------------------------------------------------------------

/// Reads the remainder of one parenthesized value list starting at `i`,
/// appending each two-digit hexadecimal value to `vals`; yields the values
/// and the position just after the closing parenthesis.
pub open spec fn vcp_values(s: Seq<u8>, i: int, vals: Seq<u8>) -> Option<(Seq<u8>, int)>
    decreases s.len() - i,
{
    if i < 0 || i >= s.len() {
        None
    } else if is_ws(s[i]) {
        vcp_values(s, i + 1, vals)
    } else if s[i] == 41 {
        Some((vals, i + 1))
    } else {
        match hex_byte_at(s, i) {
            Some(v) => vcp_values(s, i + 2, vals.push(v)),
            None => None,
        }
    }
}

pub proof fn lemma_vcp_values(s: Seq<u8>, i: int, vals: Seq<u8>)
    ensures
        match vcp_values(s, i, vals) {
            Some(r) => i < r.1 <= s.len(),
            None => true,
        },
    decreases s.len() - i,
{
    if i < s.len() {
        lemma_vcp_values(s, i + 1, vals);
        if i + 1 < s.len() && is_hex(s[i]) && is_hex(s[i + 1]) {
            lemma_vcp_values(s, i + 2, vals.push(hex_byte_at(s, i)->Some_0));
        }
    }
}

/// Reads the remainder of a `vcp(...)` group's children starting at `i` into
/// the table `fs`: each child is a two-digit hexadecimal feature code,
/// optionally followed at once by a parenthesized value list. A code that
/// appears twice keeps its later occurrence.
pub open spec fn vcp_items(s: Seq<u8>, i: int, fs: Seq<(u8, Seq<u8>)>) -> Option<
    (Seq<(u8, Seq<u8>)>, int),
>
    decreases s.len() - i,
    via vcp_items_dec
{
    if i < 0 || i >= s.len() {
        None
    } else if is_ws(s[i]) {
        vcp_items(s, i + 1, fs)
    } else if s[i] == 41 {
        Some((fs, i + 1))
    } else {
        match hex_byte_at(s, i) {
            Some(code) => {
                if i + 2 < s.len() && s[i + 2] == 40 {
                    match vcp_values(s, i + 3, Seq::empty()) {
                        Some(r) => vcp_items(s, r.1, table_upsert_from(fs, code, r.0, 0)),
                        None => None,
                    }
                } else {
                    vcp_items(s, i + 2, table_upsert_from(fs, code, Seq::empty(), 0))
                }
            },
            None => None,
        }
    }
}

#[via_fn]
proof fn vcp_items_dec(s: Seq<u8>, i: int, fs: Seq<(u8, Seq<u8>)>) {
    lemma_vcp_values(s, i + 3, Seq::empty());
}

pub proof fn lemma_vcp_items(s: Seq<u8>, i: int, fs: Seq<(u8, Seq<u8>)>)
    ensures
        match vcp_items(s, i, fs) {
            Some(r) => i < r.1 <= s.len() && (table_wf(fs) ==> table_wf(r.0)),
            None => true,
        },
    decreases s.len() - i,
{
    lemma_vcp_values(s, i + 3, Seq::empty());
    if i < s.len() {
        lemma_vcp_items(s, i + 1, fs);
        match hex_byte_at(s, i) {
            Some(code) => {
                if i + 2 < s.len() && s[i + 2] == 40 {
                    match vcp_values(s, i + 3, Seq::empty()) {
                        Some(r) => {
                            if table_wf(fs) {
                                lemma_upsert_wf(fs, code, r.0, 0);
                            }
                            lemma_vcp_items(s, r.1, table_upsert_from(fs, code, r.0, 0));
                        },
                        None => {},
                    }
                } else {
                    if table_wf(fs) {
                        lemma_upsert_wf(fs, code, Seq::empty(), 0);
                    }
                    lemma_vcp_items(s, i + 2, table_upsert_from(fs, code, Seq::empty(), 0));
                }
            },
            None => {},
        }
    }
}

// ---------------------------------------------------------------------------
// Top-level groups.
// ---------------------------------------------------------------------------

pub open spec fn model_kw() -> Seq<u8> {
    seq![109u8, 111u8, 100u8, 101u8, 108u8]
}

pub open spec fn vcp_kw() -> Seq<u8> {
    seq![118u8, 99u8, 112u8]
}

/// Reads the remainder of the top-level group's children starting at `i`.
/// Each child is `name(...)`: the `model` group's raw content becomes the
/// model name, the `vcp` group is read as the feature table, and any other
/// group is skipped by balanced-parenthesis matching. A group that appears
/// twice keeps its later occurrence. Yields the model name, the table when
/// a `vcp` group was there, and the position just after the closing
/// parenthesis.
pub open spec fn groups(
    s: Seq<u8>,
    i: int,
    name: Option<Seq<u8>>,
    table: Option<Seq<(u8, Seq<u8>)>>,
) -> Option<(Option<Seq<u8>>, Option<Seq<(u8, Seq<u8>)>>, int)>
    decreases s.len() - i,
    via groups_dec
{
    if i < 0 || i >= s.len() {
        None
    } else if is_ws(s[i]) {
        groups(s, i + 1, name, table)
    } else if s[i] == 41 {
        Some((name, table, i + 1))
    } else if is_name_byte(s[i]) {
        let e = name_end(s, i);
        if e < s.len() && s[e] == 40 {
            if s.subrange(i, e) == model_kw() {
                let c = content_end(s, e + 1);
                if c < s.len() && s[c] == 41 {
                    groups(s, c + 1, Some(s.subrange(e + 1, c)), table)
                } else {
                    None
                }
            } else if s.subrange(i, e) == vcp_kw() {
                match vcp_items(s, e + 1, Seq::empty()) {
                    Some(r) => groups(s, r.1, name, Some(r.0)),
                    None => None,
                }
            } else {
                match group_end(s, e + 1, 1) {
                    Some(k) => groups(s, k, name, table),
                    None => None,
                }
            }
        } else {
            None
        }
    } else {
        None
    }
}

#[via_fn]
proof fn groups_dec(s: Seq<u8>, i: int, name: Option<Seq<u8>>, table: Option<Seq<(u8, Seq<u8>)>>) {
    let e = name_end(s, i);
    lemma_name_end(s, i);
    lemma_content_end(s, e + 1);
    lemma_vcp_items(s, e + 1, Seq::empty());
    lemma_group_end(s, e + 1, 1);
    if 0 <= i < s.len() && is_name_byte(s[i]) {
        assert(name_end(s, i) == name_end(s, i + 1));
        lemma_name_end(s, i + 1);
    }
}

pub proof fn lemma_groups(s: Seq<u8>, i: int, name: Option<Seq<u8>>, table: Option<Seq<(u8, Seq<u8>)>>)
    ensures
        match groups(s, i, name, table) {
            Some(r) => i < r.2 <= s.len() && ((match table {
                Some(t) => table_wf(t),
                None => true,
            }) ==> (match r.1 {
                Some(t) => table_wf(t),
                None => true,
            })),
            None => true,
        },
    decreases s.len() - i,
{
    let e = name_end(s, i);
    lemma_name_end(s, i);
    lemma_content_end(s, e + 1);
    lemma_vcp_items(s, e + 1, Seq::empty());
    lemma_group_end(s, e + 1, 1);
    if 0 <= i < s.len() && is_name_byte(s[i]) {
        assert(name_end(s, i) == name_end(s, i + 1));
        lemma_name_end(s, i + 1);
    }
    if 0 <= i < s.len() {
        if is_ws(s[i]) {
            lemma_groups(s, i + 1, name, table);
        } else if is_name_byte(s[i]) && e < s.len() && s[e] == 40 {
            if s.subrange(i, e) == model_kw() {
                let c = content_end(s, e + 1);
                if c < s.len() && s[c] == 41 {
                    lemma_groups(s, c + 1, Some(s.subrange(e + 1, c)), table);
                }
            } else if s.subrange(i, e) == vcp_kw() {
                match vcp_items(s, e + 1, Seq::empty()) {
                    Some(r) => {
                        lemma_groups(s, r.1, name, Some(r.0));
                    },
                    None => {},
                }
            } else {
                match group_end(s, e + 1, 1) {
                    Some(k) => {
                        lemma_groups(s, k, name, table);
                    },
                    None => {},
                }
            }
        }
    }
}

// ---------------------------------------------------------------------------
// The whole string.
// ---------------------------------------------------------------------------

/// What `parse` returns on `s`: `Empty` when `s` holds nothing but
/// whitespace; otherwise one balanced top-level group with a `vcp(...)`
/// child and nothing but whitespace after it, or `Malformed`.
pub open spec fn spec_parse(s: Seq<u8>) -> Result<ModelView, ParseError> {
    let j = ws_end(s, 0);
    if j >= s.len() {
        Err(ParseError::Empty)
    } else if s[j] != 40 {
        Err(ParseError::Malformed)
    } else {
        match groups(s, j + 1, None, None) {
            Some(r) => {
                if ws_end(s, r.2) >= s.len() {
                    match r.1 {
                        Some(t) => Ok(ModelView { model_name: r.0, features: t }),
                        None => Err(ParseError::Malformed),
                    }
                } else {
                    Err(ParseError::Malformed)
                }
            },
            None => Err(ParseError::Malformed),
        }
    }
}

// ---------------------------------------------------------------------------
// The executable parser, held to the scanning functions above.
// ---------------------------------------------------------------------------

fn is_ws_x(b: u8) -> (r: bool)
    ensures
        r == is_ws(b),
{
    b == 32 || b == 9 || b == 10 || b == 13
}

fn is_name_byte_x(b: u8) -> (r: bool)
    ensures
        r == is_name_byte(b),
{
    (97 <= b && b <= 122) || (65 <= b && b <= 90) || (48 <= b && b <= 57) || b == 95
}

fn is_hex_x(b: u8) -> (r: bool)
    ensures
        r == is_hex(b),
{
    (48 <= b && b <= 57) || (65 <= b && b <= 70) || (97 <= b && b <= 102)
}

fn hex_val_x(b: u8) -> (r: u8)
    requires
        is_hex(b),
    ensures
        r == hex_val(b),
{
    if 48 <= b && b <= 57 {
        b - 48
    } else if 65 <= b && b <= 70 {
        b - 55
    } else {
        b - 87
    }
}

fn scan_ws(s: &[u8], i: usize) -> (r: usize)
    requires
        i <= s@.len(),
    ensures
        r == ws_end(s@, i as int),
        i <= r <= s@.len(),
    decreases s@.len() - i,
{
    if i < s.len() && is_ws_x(s[i]) {
        scan_ws(s, i + 1)
    } else {
        i
    }
}

fn scan_name(s: &[u8], i: usize) -> (r: usize)
    requires
        i <= s@.len(),
    ensures
        r == name_end(s@, i as int),
        i <= r <= s@.len(),
    decreases s@.len() - i,
{
    if i < s.len() && is_name_byte_x(s[i]) {
        scan_name(s, i + 1)
    } else {
        i
    }
}

fn scan_content(s: &[u8], i: usize) -> (r: usize)
    requires
        i <= s@.len(),
    ensures
        r == content_end(s@, i as int),
        i <= r <= s@.len(),
    decreases s@.len() - i,
{
    if i < s.len() && s[i] != 40 && s[i] != 41 {
        scan_content(s, i + 1)
    } else {
        i
    }
}

fn scan_group_end(s: &[u8], i: usize, depth: usize) -> (r: Option<usize>)
    requires
        i <= s@.len(),
        depth <= i,
    ensures
        match r {
            Some(k) => group_end(s@, i as int, depth as int) == Some(k as int) && i < k <= s@.len(),
            None => group_end(s@, i as int, depth as int) is None,
        },
    decreases s@.len() - i,
{
    if i >= s.len() {
        None
    } else if s[i] == 40 {
        scan_group_end(s, i + 1, depth + 1)
    } else if s[i] == 41 {
        if depth <= 1 {
            Some(i + 1)
        } else {
            scan_group_end(s, i + 1, depth - 1)
        }
    } else {
        scan_group_end(s, i + 1, depth)
    }
}

/// Copies `s[a..b]` into an owned vector.
fn copy_range(s: &[u8], a: usize, b: usize) -> (r: Vec<u8>)
    requires
        a <= b <= s@.len(),
    ensures
        r@ == s@.subrange(a as int, b as int),
{
    let mut out: Vec<u8> = Vec::new();
    let mut i: usize = a;
    while i < b
        invariant
            a <= i <= b <= s@.len(),
            out@ == s@.subrange(a as int, i as int),
        decreases b - i,
    {
        out.push(s[i]);
        proof {
            assert(out@ =~= s@.subrange(a as int, i + 1 as int));
        }
        i = i + 1;
    }
    out
}

/// Replaces the entry for `code` at or after `i`, or appends one.
fn upsert_from(fs: Vec<VcpFeatureEntry>, code: u8, vals: Vec<u8>, i: usize) -> (r: Vec<
    VcpFeatureEntry,
>)
    requires
        i <= fs@.len(),
    ensures
        entries_view(r@) == table_upsert_from(entries_view(fs@), code, vals@, i as int),
    decreases fs@.len() - i,
{
    let ghost fs0 = entries_view(fs@);
    let mut fs = fs;
    if i < fs.len() {
        if fs[i].code == code {
            fs.set(i, VcpFeatureEntry { code, allowed_values: vals });
            proof {
                assert(entries_view(fs@) =~= fs0.update(i as int, (code, vals@)));
            }
            fs
        } else {
            upsert_from(fs, code, vals, i + 1)
        }
    } else {
        fs.push(VcpFeatureEntry { code, allowed_values: vals });
        proof {
            assert(entries_view(fs@) =~= fs0.push((code, vals@)));
        }
        fs
    }
}

fn scan_values(s: &[u8], i: usize, vals: Vec<u8>) -> (r: Option<(Vec<u8>, usize)>)
    requires
        i <= s@.len(),
    ensures
        match r {
            Some(p) => vcp_values(s@, i as int, vals@) == Some((p.0@, p.1 as int)) && i < p.1
                <= s@.len(),
            None => vcp_values(s@, i as int, vals@) is None,
        },
    decreases s@.len() - i,
{
    if i >= s.len() {
        None
    } else if is_ws_x(s[i]) {
        scan_values(s, i + 1, vals)
    } else if s[i] == 41 {
        Some((vals, i + 1))
    } else if i + 1 < s.len() && is_hex_x(s[i]) && is_hex_x(s[i + 1]) {
        let v: u8 = hex_val_x(s[i]) * 16 + hex_val_x(s[i + 1]);
        let mut vals = vals;
        vals.push(v);
        scan_values(s, i + 2, vals)
    } else {
        None
    }
}

fn scan_items(s: &[u8], i: usize, fs: Vec<VcpFeatureEntry>) -> (r: Option<
    (Vec<VcpFeatureEntry>, usize),
>)
    requires
        i <= s@.len(),
    ensures
        match r {
            Some(p) => vcp_items(s@, i as int, entries_view(fs@)) == Some(
                (entries_view(p.0@), p.1 as int),
            ) && i < p.1 <= s@.len(),
            None => vcp_items(s@, i as int, entries_view(fs@)) is None,
        },
    decreases s@.len() - i,
{
    if i >= s.len() {
        None
    } else if is_ws_x(s[i]) {
        scan_items(s, i + 1, fs)
    } else if s[i] == 41 {
        Some((fs, i + 1))
    } else if i + 1 < s.len() && is_hex_x(s[i]) && is_hex_x(s[i + 1]) {
        let code: u8 = hex_val_x(s[i]) * 16 + hex_val_x(s[i + 1]);
        if i + 2 < s.len() && s[i + 2] == 40 {
            let vbuf: Vec<u8> = Vec::new();
            proof {
                assert(vbuf@ =~= Seq::<u8>::empty());
            }
            match scan_values(s, i + 3, vbuf) {
                Some(p) => {
                    let fs2 = upsert_from(fs, code, p.0, 0);
                    scan_items(s, p.1, fs2)
                },
                None => None,
            }
        } else {
            let fs2 = upsert_from(fs, code, Vec::new(), 0);
            scan_items(s, i + 2, fs2)
        }
    } else {
        None
    }
}

fn model_kw_x() -> (r: Vec<u8>)
    ensures
        r@ == model_kw(),
{
    let mut v: Vec<u8> = Vec::new();
    v.push(109);
    v.push(111);
    v.push(100);
    v.push(101);
    v.push(108);
    proof {
        assert(v@ =~= model_kw());
    }
    v
}

fn vcp_kw_x() -> (r: Vec<u8>)
    ensures
        r@ == vcp_kw(),
{
    let mut v: Vec<u8> = Vec::new();
    v.push(118);
    v.push(99);
    v.push(112);
    proof {
        assert(v@ =~= vcp_kw());
    }
    v
}

/// Whether `s[i..e]` spells the keyword `kw` (an ASCII group name).
fn kw_eq(s: &[u8], i: usize, e: usize, kw: &Vec<u8>) -> (r: bool)
    requires
        i <= e <= s@.len(),
    ensures
        r == (s@.subrange(i as int, e as int) == kw@),
{
    if e - i != kw.len() {
        proof {
            assert(s@.subrange(i as int, e as int).len() != kw@.len());
        }
        return false;
    }
    let mut j: usize = 0;
    while j < kw.len()
        invariant
            i <= e <= s@.len(),
            e - i == kw@.len(),
            j <= kw@.len(),
            forall|k: int| 0 <= k < j ==> s@.subrange(i as int, e as int)[k] == kw@[k],
        decreases kw@.len() - j,
    {
        if s[i + j] != kw[j] {
            proof {
                assert(s@.subrange(i as int, e as int)[j as int] != kw@[j as int]);
            }
            return false;
        }
        j = j + 1;
    }
    proof {
        assert(s@.subrange(i as int, e as int) =~= kw@);
    }
    true
}

fn scan_groups(
    s: &[u8],
    i: usize,
    name: Option<Vec<u8>>,
    table: Option<Vec<VcpFeatureEntry>>,
) -> (r: Option<(Option<Vec<u8>>, Option<Vec<VcpFeatureEntry>>, usize)>)
    requires
        i <= s@.len(),
    ensures
        match r {
            Some(p) => groups(s@, i as int, opt_bytes_view(name), opt_table_view(table)) == Some(
                (opt_bytes_view(p.0), opt_table_view(p.1), p.2 as int),
            ) && i < p.2 <= s@.len(),
            None => groups(s@, i as int, opt_bytes_view(name), opt_table_view(table)) is None,
        },
    decreases s@.len() - i,
{
    if i >= s.len() {
        None
    } else if is_ws_x(s[i]) {
        scan_groups(s, i + 1, name, table)
    } else if s[i] == 41 {
        Some((name, table, i + 1))
    } else if is_name_byte_x(s[i]) {
        let e = scan_name(s, i);
        if e < s.len() && s[e] == 40 {
            let model_bytes = model_kw_x();
            let vcp_bytes = vcp_kw_x();
            if kw_eq(s, i, e, &model_bytes) {
                let c = scan_content(s, e + 1);
                if c < s.len() && s[c] == 41 {
                    let n = copy_range(s, e + 1, c);
                    scan_groups(s, c + 1, Some(n), table)
                } else {
                    None
                }
            } else if kw_eq(s, i, e, &vcp_bytes) {
                let tbuf: Vec<VcpFeatureEntry> = Vec::new();
                proof {
                    assert(entries_view(tbuf@) =~= Seq::<(u8, Seq<u8>)>::empty());
                }
                match scan_items(s, e + 1, tbuf) {
                    Some(p) => scan_groups(s, p.1, name, Some(p.0)),
                    None => None,
                }
            } else {
                match scan_group_end(s, e + 1, 1) {
                    Some(k) => scan_groups(s, k, name, table),
                    None => None,
                }
            }
        } else {
            None
        }
    } else {
        None
    }
}

pub open spec fn opt_bytes_view(o: Option<Vec<u8>>) -> Option<Seq<u8>> {
    match o {
        Some(v) => Some(v@),
        None => None,
    }
}

pub open spec fn opt_table_view(o: Option<Vec<VcpFeatureEntry>>) -> Option<Seq<(u8, Seq<u8>)>> {
    match o {
        Some(v) => Some(entries_view(v@)),
        None => None,
    }
}

/// Parses one raw capability string into a capability model.
///
/// Fails with `Empty` when the string holds nothing but whitespace, and
/// with `Malformed` when the grouping is unbalanced, a child is not
/// `name(...)`, a `vcp` child is not two hexadecimal digits with an
/// optional value list, anything follows the top-level group, or no
/// `vcp(...)` group is there. Unknown groups are ignored. The feature
/// table of a parsed model has unique codes: of a code declared twice the
/// later occurrence wins.
pub fn parse(raw: &[u8]) -> (r: Result<CapabilityModel, ParseError>)
    ensures
        match r {
            Ok(m) => spec_parse(raw@) == Ok::<ModelView, ParseError>(m@) && m@.wf(),
            Err(e) => spec_parse(raw@) == Err::<ModelView, ParseError>(e),
        },
{
    let j = scan_ws(raw, 0);
    if j >= raw.len() {
        Err(ParseError::Empty)
    } else if raw[j] != 40 {
        Err(ParseError::Malformed)
    } else {
        proof {
            lemma_groups(raw@, j + 1 as int, None, None);
        }
        match scan_groups(raw, j + 1, None, None) {
            Some(p) => {
                let k = scan_ws(raw, p.2);
                if k >= raw.len() {
                    match p.1 {
                        Some(t) => Ok(CapabilityModel { model_name: p.0, features: t }),
                        None => Err(ParseError::Malformed),
                    }
                } else {
                    Err(ParseError::Malformed)
                }
            },
            None => Err(ParseError::Malformed),
        }
    }
}

// ---------------------------------------------------------------------------
// Serializing a model back into a capability string.
// ---------------------------------------------------------------------------

/// The digit spelling `n` (below 16) in uppercase hexadecimal.
pub open spec fn hex_digit(n: int) -> u8 {
    if n < 10 {
        (48 + n) as u8
    } else {
        (55 + n) as u8
    }
}

/// The two uppercase hexadecimal digits spelling `v`.
pub open spec fn ser_byte(v: u8) -> Seq<u8> {
    seq![hex_digit(v as int / 16), hex_digit(v as int % 16)]
}

/// Each value as two digits, each followed by one space.
pub open spec fn ser_values(vs: Seq<u8>) -> Seq<u8>
    decreases vs.len(),
{
    if vs.len() == 0 {
        Seq::empty()
    } else {
        ser_byte(vs[0]) + seq![32u8] + ser_values(vs.drop_first())
    }
}

/// One feature: its code, its parenthesized value list when one was
/// declared, and one trailing space.
pub open spec fn ser_item(code: u8, vals: Seq<u8>) -> Seq<u8> {
    ser_byte(code) + (if vals.len() == 0 {
        Seq::<u8>::empty()
    } else {
        seq![40u8] + ser_values(vals) + seq![41u8]
    }) + seq![32u8]
}

pub open spec fn ser_items(fs: Seq<(u8, Seq<u8>)>) -> Seq<u8>
    decreases fs.len(),
{
    if fs.len() == 0 {
        Seq::empty()
    } else {
        ser_item(fs[0].0, fs[0].1) + ser_items(fs.drop_first())
    }
}

pub open spec fn ser_model_group(name: Option<Seq<u8>>) -> Seq<u8> {
    match name {
        None => Seq::empty(),
        Some(n) => model_kw() + seq![40u8] + n + seq![41u8],
    }
}

/// The canonical capability string of a model: one top-level group holding
/// the model group (when a name is there) and the vcp group.
pub open spec fn spec_serialize(m: ModelView) -> Seq<u8> {
    seq![40u8] + ser_model_group(m.model_name) + vcp_kw() + seq![40u8] + ser_items(m.features)
        + seq![41u8, 41u8]
}

fn hex_digit_x(n: u8) -> (r: u8)
    requires
        n < 16,
    ensures
        r == hex_digit(n as int),
{
    if n < 10 {
        48 + n
    } else {
        55 + n
    }
}

fn push_hex_byte(out: Vec<u8>, v: u8) -> (r: Vec<u8>)
    ensures
        r@ == out@ + ser_byte(v),
{
    let ghost o0 = out@;
    let mut out = out;
    out.push(hex_digit_x(v / 16));
    out.push(hex_digit_x(v % 16));
    proof {
        assert(out@ =~= o0 + ser_byte(v));
    }
    out
}

fn ser_values_x(vs: &Vec<u8>, i: usize, out: Vec<u8>) -> (r: Vec<u8>)
    requires
        i <= vs@.len(),
    ensures
        r@ == out@ + ser_values(vs@.skip(i as int)),
    decreases vs@.len() - i,
{
    if i < vs.len() {
        let ghost o0 = out@;
        let mut out = push_hex_byte(out, vs[i]);
        out.push(32);
        proof {
            assert(vs@.skip(i as int)[0] == vs@[i as int]);
            assert(vs@.skip(i as int).drop_first() =~= vs@.skip(i + 1 as int));
            assert(out@ =~= o0 + ser_byte(vs@[i as int]) + seq![32u8]);
        }
        let r = ser_values_x(vs, i + 1, out);
        proof {
            assert(r@ =~= o0 + ser_values(vs@.skip(i as int)));
        }
        r
    } else {
        proof {
            assert(vs@.skip(i as int) =~= Seq::<u8>::empty());
            assert(out@ + ser_values(vs@.skip(i as int)) =~= out@);
        }
        out
    }
}

fn ser_items_x(fs: &Vec<VcpFeatureEntry>, i: usize, out: Vec<u8>) -> (r: Vec<u8>)
    requires
        i <= fs@.len(),
    ensures
        r@ == out@ + ser_items(entries_view(fs@).skip(i as int)),
    decreases fs@.len() - i,
{
    if i < fs.len() {
        let ghost o0 = out@;
        let ghost w = entries_view(fs@);
        proof {
            assert(w.skip(i as int)[0] == w[i as int]);
            assert(w[i as int] == (fs@[i as int].code, fs@[i as int].allowed_values@));
            assert(w.skip(i as int).drop_first() =~= w.skip(i + 1 as int));
        }
        let mut out = push_hex_byte(out, fs[i].code);
        if fs[i].allowed_values.len() > 0 {
            out.push(40);
            out = ser_values_x(&fs[i].allowed_values, 0, out);
            out.push(41);
            proof {
                assert(fs@[i as int].allowed_values@.skip(0) =~= fs@[i as int].allowed_values@);
            }
        }
        out.push(32);
        proof {
            assert(out@ =~= o0 + ser_item(w[i as int].0, w[i as int].1));
        }
        let r = ser_items_x(fs, i + 1, out);
        proof {
            assert(r@ =~= o0 + ser_items(w.skip(i as int)));
        }
        r
    } else {
        proof {
            assert(entries_view(fs@).skip(i as int) =~= Seq::<(u8, Seq<u8>)>::empty());
            assert(out@ + ser_items(entries_view(fs@).skip(i as int)) =~= out@);
        }
        out
    }
}

/// Writes `m` back as a capability string, the canonical way: parsing the
/// result reconstructs `m` (see `lemma_parse_serialize`).
pub fn capability_string(m: &CapabilityModel) -> (r: Vec<u8>)
    ensures
        r@ == spec_serialize(m@),
{
    let mut out: Vec<u8> = Vec::new();
    out.push(40);
    match &m.model_name {
        Some(n) => {
            let ghost o0 = out@;
            let mut kw = model_kw_x();
            out.append(&mut kw);
            out.push(40);
            let mut j: usize = 0;
            let ghost o1 = out@;
            while j < n.len()
                invariant
                    j <= n@.len(),
                    out@ == o1 + n@.subrange(0, j as int),
                decreases n@.len() - j,
            {
                out.push(n[j]);
                proof {
                    assert(out@ =~= o1 + n@.subrange(0, j + 1 as int));
                }
                j = j + 1;
            }
            out.push(41);
            proof {
                assert(n@.subrange(0, n@.len() as int) =~= n@);
                assert(out@ =~= o0 + ser_model_group(Some(n@)));
            }
        },
        None => {},
    }
    let ghost o2 = out@;
    let mut vkw = vcp_kw_x();
    out.append(&mut vkw);
    out.push(40);
    out = ser_items_x(&m.features, 0, out);
    out.push(41);
    out.push(41);
    proof {
        assert(entries_view(m.features@).skip(0) =~= entries_view(m.features@));
        assert(out@ =~= o2 + vcp_kw() + seq![40u8] + ser_items(entries_view(m.features@)) + seq![
            41u8,
            41u8,
        ]);
        assert(out@ =~= spec_serialize(m@));
    }
    out
}

// ---------------------------------------------------------------------------
// Round trip: parsing a serialized model reconstructs it.
// ---------------------------------------------------------------------------

proof fn lemma_hex_digit(n: int)
    requires
        0 <= n < 16,
    ensures
        is_hex(hex_digit(n)),
        hex_val(hex_digit(n)) == n,
        !is_ws(hex_digit(n)),
        hex_digit(n) != 40,
        hex_digit(n) != 41,
{
}

proof fn lemma_hex_pair(s: Seq<u8>, i: int, v: u8)
    requires
        0 <= i,
        i + 1 < s.len(),
        s[i] == ser_byte(v)[0],
        s[i + 1] == ser_byte(v)[1],
    ensures
        hex_byte_at(s, i) == Some(v),
        !is_ws(s[i]),
        s[i] != 41,
        s[i] != 40,
    decreases 0int,
{
    lemma_hex_digit(v as int / 16);
    lemma_hex_digit(v as int % 16);
    assert(v as int == 16 * (v as int / 16) + (v as int % 16));
}

proof fn lemma_subrange_shift(s: Seq<u8>, i: int, a: Seq<u8>, b: Seq<u8>)
    requires
        0 <= i,
        i + a.len() + b.len() <= s.len(),
        s.subrange(i, i + a.len() + b.len()) == a + b,
    ensures
        s.subrange(i, i + a.len()) == a,
        s.subrange(i + a.len(), i + a.len() + b.len()) == b,
{
    let al = a.len() as int;
    let bl = b.len() as int;
    assert forall|j: int| 0 <= j < al implies s[i + j] == a[j] by {
        assert(s.subrange(i, i + al + bl)[j] == s[i + j]);
        assert((a + b)[j] == a[j]);
    }
    assert forall|j: int| 0 <= j < bl implies s[i + al + j] == b[j] by {
        assert(s.subrange(i, i + al + bl)[al + j] == s[i + al + j]);
        assert((a + b)[al + j] == b[j]);
    }
    assert(s.subrange(i, i + al) =~= a);
    assert(s.subrange(i + al, i + al + bl) =~= b);
}

proof fn lemma_values_round_trip(s: Seq<u8>, i: int, vs: Seq<u8>, acc: Seq<u8>)
    requires
        0 <= i,
        i + ser_values(vs).len() + 1 <= s.len(),
        s.subrange(i, i + ser_values(vs).len() + 1) == ser_values(vs) + seq![41u8],
    ensures
        vcp_values(s, i, acc) == Some((acc + vs, i + ser_values(vs).len() + 1)),
    decreases vs.len(),
{
    let lv = ser_values(vs).len() as int;
    let sub = s.subrange(i, i + lv + 1);
    if vs.len() == 0 {
        assert(s[i] == sub[0]);
        assert(s[i] == 41);
        assert(acc + vs =~= acc);
        assert(vcp_values(s, i, acc) == Some((acc, i + 1)));
    } else {
        let v0 = vs[0];
        let vs1 = vs.drop_first();
        let lv1 = ser_values(vs1).len() as int;
        assert(ser_values(vs) == ser_byte(v0) + seq![32u8] + ser_values(vs1));
        assert(lv == 3 + lv1);
        assert(s[i] == sub[0] && sub[0] == ser_byte(v0)[0]);
        assert(s[i + 1] == sub[1] && sub[1] == ser_byte(v0)[1]);
        assert(s[i + 2] == sub[2] && sub[2] == 32);
        lemma_hex_pair(s, i, v0);
        assert(vcp_values(s, i, acc) == vcp_values(s, i + 2, acc.push(v0)));
        assert(vcp_values(s, i + 2, acc.push(v0)) == vcp_values(s, i + 3, acc.push(v0)));
        assert(ser_values(vs) + seq![41u8] =~= (ser_byte(v0) + seq![32u8]) + (ser_values(vs1)
            + seq![41u8]));
        lemma_subrange_shift(s, i, ser_byte(v0) + seq![32u8], ser_values(vs1) + seq![41u8]);
        lemma_values_round_trip(s, i + 3, vs1, acc.push(v0));
        assert(acc.push(v0) + vs1 =~= acc + vs);
    }
}

proof fn lemma_items_round_trip(
    s: Seq<u8>,
    i: int,
    fs: Seq<(u8, Seq<u8>)>,
    acc: Seq<(u8, Seq<u8>)>,
)
    requires
        0 <= i,
        table_wf(acc + fs),
        i + ser_items(fs).len() + 1 <= s.len(),
        s.subrange(i, i + ser_items(fs).len() + 1) == ser_items(fs) + seq![41u8],
    ensures
        vcp_items(s, i, acc) == Some((acc + fs, i + ser_items(fs).len() + 1)),
    decreases fs.len(),
{
    let li = ser_items(fs).len() as int;
    let sub = s.subrange(i, i + li + 1);
    if fs.len() == 0 {
        assert(s[i] == sub[0]);
        assert(s[i] == 41);
        assert(acc + fs =~= acc);
        assert(vcp_items(s, i, acc) == Some((acc, i + 1)));
    } else {
        let c = fs[0].0;
        let vs = fs[0].1;
        let fs1 = fs.drop_first();
        let li1 = ser_items(fs1).len() as int;
        assert(ser_items(fs) == ser_item(c, vs) + ser_items(fs1));
        assert(s[i] == sub[0] && sub[0] == ser_byte(c)[0]);
        assert(s[i + 1] == sub[1] && sub[1] == ser_byte(c)[1]);
        lemma_hex_pair(s, i, c);
        assert forall|j: int| 0 <= j < acc.len() implies acc[j].0 != c by {
            assert((acc + fs)[j] == acc[j]);
            assert((acc + fs)[acc.len() as int] == fs[0]);
        }
        assert(acc.push(fs[0]) + fs1 =~= acc + fs);
        if vs.len() == 0 {
            assert(ser_item(c, vs).len() == 3);
            assert(s[i + 2] == sub[2] && sub[2] == 32);
            lemma_upsert_absent(acc, c, Seq::empty(), 0);
            assert(vs =~= Seq::<u8>::empty());
            assert(table_upsert_from(acc, c, Seq::empty(), 0) == acc.push(fs[0]));
            assert(vcp_items(s, i, acc) == vcp_items(s, i + 2, acc.push(fs[0])));
            assert(vcp_items(s, i + 2, acc.push(fs[0])) == vcp_items(s, i + 3, acc.push(fs[0])));
            assert(ser_items(fs) + seq![41u8] =~= (ser_byte(c) + seq![32u8]) + (ser_items(fs1)
                + seq![41u8]));
            lemma_subrange_shift(s, i, ser_byte(c) + seq![32u8], ser_items(fs1) + seq![41u8]);
            lemma_items_round_trip(s, i + 3, fs1, acc.push(fs[0]));
        } else {
            let lval = ser_values(vs).len() as int;
            assert(ser_item(c, vs).len() == lval + 5);
            assert(s[i + 2] == sub[2] && sub[2] == 40);
            let tail = seq![32u8] + ser_items(fs1) + seq![41u8];
            assert(ser_items(fs) + seq![41u8] =~= (ser_byte(c) + seq![40u8]) + ((ser_values(vs)
                + seq![41u8]) + tail));
            lemma_subrange_shift(s, i, ser_byte(c) + seq![40u8], (ser_values(vs) + seq![41u8])
                + tail);
            lemma_subrange_shift(s, i + 3, ser_values(vs) + seq![41u8], tail);
            lemma_values_round_trip(s, i + 3, vs, Seq::empty());
            let k = i + 3 + lval + 1;
            assert(Seq::<u8>::empty() + vs =~= vs);
            assert(vcp_values(s, i + 3, Seq::empty()) == Some((vs, k)));
            lemma_upsert_absent(acc, c, vs, 0);
            assert(table_upsert_from(acc, c, vs, 0) == acc.push(fs[0]));
            assert(vcp_items(s, i, acc) == vcp_items(s, k, acc.push(fs[0])));
            assert(s[k] == s.subrange(k, k + tail.len() as int)[0]);
            assert(s[k] == 32);
            assert(vcp_items(s, k, acc.push(fs[0])) == vcp_items(s, k + 1, acc.push(fs[0])));
            assert(tail =~= seq![32u8] + (ser_items(fs1) + seq![41u8]));
            lemma_subrange_shift(s, k, seq![32u8], ser_items(fs1) + seq![41u8]);
            lemma_items_round_trip(s, k + 1, fs1, acc.push(fs[0]));
        }
    }
}

proof fn lemma_name_scan(s: Seq<u8>, i: int, n: Seq<u8>)
    requires
        0 <= i,
        i + n.len() < s.len(),
        s.subrange(i, i + n.len()) == n,
        forall|k: int| 0 <= k < n.len() ==> is_name_byte(#[trigger] n[k]),
        !is_name_byte(s[i + n.len()]),
    ensures
        name_end(s, i) == i + n.len(),
    decreases n.len(),
{
    if n.len() == 0 {
    } else {
        assert(s[i] == s.subrange(i, i + n.len())[0]);
        assert(is_name_byte(n[0]));
        assert(s.subrange(i + 1, i + 1 + (n.len() - 1)) =~= n.drop_first());
        assert forall|k: int| 0 <= k < n.drop_first().len() implies is_name_byte(
            #[trigger] n.drop_first()[k],
        ) by {
            assert(n.drop_first()[k] == n[k + 1]);
        }
        lemma_name_scan(s, i + 1, n.drop_first());
    }
}

proof fn lemma_content_scan(s: Seq<u8>, i: int, n: Seq<u8>)
    requires
        0 <= i,
        i + n.len() < s.len(),
        s.subrange(i, i + n.len()) == n,
        forall|k: int| 0 <= k < n.len() ==> #[trigger] n[k] != 40 && n[k] != 41,
        s[i + n.len()] == 40 || s[i + n.len()] == 41,
    ensures
        content_end(s, i) == i + n.len(),
    decreases n.len(),
{
    if n.len() == 0 {
    } else {
        assert(s[i] == s.subrange(i, i + n.len())[0]);
        assert(n[0] != 40 && n[0] != 41);
        assert(s.subrange(i + 1, i + 1 + (n.len() - 1)) =~= n.drop_first());
        assert forall|k: int| 0 <= k < n.drop_first().len() implies #[trigger] n.drop_first()[k]
            != 40 && n.drop_first()[k] != 41 by {
            assert(n.drop_first()[k] == n[k + 1]);
        }
        lemma_content_scan(s, i + 1, n.drop_first());
    }
}

/// A model name can be written back only when it holds no parenthesis:
/// the grammar delimits the model group with them.
pub open spec fn serializable_name(name: Option<Seq<u8>>) -> bool {
    match name {
        None => true,
        Some(n) => forall|k: int| 0 <= k < n.len() ==> #[trigger] n[k] != 40 && n[k] != 41,
    }
}

/// Round trip: the capability string serialized from a well-formed model
/// parses back to that model exactly — same model name, same feature
/// codes, same allowed values, in the same order.
pub proof fn lemma_parse_serialize(m: ModelView)
    requires
        m.wf(),
        serializable_name(m.model_name),
    ensures
        spec_parse(spec_serialize(m)) == Ok::<ModelView, ParseError>(m),
{
    let s = spec_serialize(m);
    let fs = m.features;
    let li = ser_items(fs).len() as int;
    assert(is_name_byte(109) && is_name_byte(111) && is_name_byte(100) && is_name_byte(101)
        && is_name_byte(108));
    assert(is_name_byte(118) && is_name_byte(99) && is_name_byte(112));
    assert(Seq::<(u8, Seq<u8>)>::empty() + fs =~= fs);
    assert(s[0] == 40);
    assert(ws_end(s, 0) == 0);
    match m.model_name {
        Some(n) => {
            let nl = n.len() as int;
            assert(ser_model_group(Some(n)) == model_kw() + seq![40u8] + n + seq![41u8]);
            assert(s.len() == nl + li + 14);
            assert(s.subrange(1, 6) =~= model_kw());
            assert(s[6] == 40);
            lemma_name_scan(s, 1, model_kw());
            assert(name_end(s, 1) == 6);
            let c0 = 7 + nl;
            assert(s.subrange(7, c0) =~= n);
            assert(s[c0] == 41);
            lemma_content_scan(s, 7, n);
            assert(content_end(s, 7) == c0);
            assert(groups(s, 1, None, None) == groups(s, c0 + 1, Some(s.subrange(7, c0)), None));
            let e2 = c0 + 4;
            assert(s.subrange(c0 + 1, e2) =~= vcp_kw());
            assert(s[e2] == 40);
            lemma_name_scan(s, c0 + 1, vcp_kw());
            assert(name_end(s, c0 + 1) == e2);
            assert(s.subrange(c0 + 1, e2) != model_kw()) by {
                assert(s.subrange(c0 + 1, e2).len() != model_kw().len());
            }
            assert(s.subrange(e2 + 1, e2 + 1 + li + 1) =~= ser_items(fs) + seq![41u8]);
            lemma_items_round_trip(s, e2 + 1, fs, Seq::empty());
            let q = e2 + 1 + li + 1;
            assert(vcp_items(s, e2 + 1, Seq::empty()) == Some((fs, q)));
            assert(groups(s, c0 + 1, Some(n), None) == groups(s, q, Some(n), Some(fs)));
            assert(s[q] == 41);
            assert(groups(s, q, Some(n), Some(fs)) == Some(
                (Some(n), Some(fs), q + 1),
            ));
            assert(q + 1 == s.len());
            assert(ws_end(s, q + 1) == q + 1);
        },
        None => {
            assert(ser_model_group(None) == Seq::<u8>::empty());
            assert(s.len() == li + 7);
            let e2: int = 4;
            assert(s.subrange(1, e2) =~= vcp_kw());
            assert(s[e2] == 40);
            lemma_name_scan(s, 1, vcp_kw());
            assert(name_end(s, 1) == e2);
            assert(s.subrange(1, e2) != model_kw()) by {
                assert(s.subrange(1, e2).len() != model_kw().len());
            }
            assert(s.subrange(5, 5 + li + 1) =~= ser_items(fs) + seq![41u8]);
            lemma_items_round_trip(s, 5, fs, Seq::empty());
            let q = 5 + li + 1;
            assert(vcp_items(s, 5, Seq::empty()) == Some((fs, q)));
            assert(groups(s, 1, None, None) == groups(s, q, None, Some(fs)));
            assert(s[q] == 41);
            assert(groups(s, q, None, Some(fs)) == Some(
                (None::<Seq<u8>>, Some(fs), q + 1),
            ));
            assert(q + 1 == s.len());
            assert(ws_end(s, q + 1) == q + 1);
        },
    }
}

} // verus!

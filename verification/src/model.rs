use vstd::prelude::*;

verus! {

/// One feature a monitor declares: its VCP code and the values the monitor
/// enumerates for it. An empty `allowed_values` means the feature was
/// declared without a value list (continuous/unenumerated), which is
/// distinct from the feature being absent from the table.
#[derive(Debug, Clone, PartialEq)]
pub struct VcpFeatureEntry {
    pub code: u8,
    pub allowed_values: Vec<u8>,
}

/// Mathematical view of a capability model: the model name's bytes when a
/// `model(...)` group was present, and the feature table as a sequence of
/// (code, allowed values) pairs, codes unique, in declaration order.
pub struct ModelView {
    pub model_name: Option<Seq<u8>>,
    pub features: Seq<(u8, Seq<u8>)>,
}

/// The allowed values recorded for `code` in table `t`, or `None` when no
/// entry carries that code.
pub open spec fn table_lookup(t: Seq<(u8, Seq<u8>)>, code: u8, i: int) -> Option<Seq<u8>>
    decreases t.len() - i,
{
    if i < 0 || i >= t.len() {
        None
    } else if t[i].0 == code {
        Some(t[i].1)
    } else {
        table_lookup(t, code, i + 1)
    }
}

/// A feature table is well formed when its codes are unique.
pub open spec fn table_wf(t: Seq<(u8, Seq<u8>)>) -> bool {
    forall|i: int, j: int| 0 <= i < j < t.len() ==> t[i].0 != t[j].0
}

/// Insert-or-replace: the entry for `code` is replaced where one exists
/// at or after `i`, and appended otherwise (the later occurrence of a code
/// in a capability string wins).
pub open spec fn table_upsert_from(
    t: Seq<(u8, Seq<u8>)>,
    code: u8,
    vals: Seq<u8>,
    i: int,
) -> Seq<(u8, Seq<u8>)>
    decreases t.len() - i,
{
    if i < 0 || i >= t.len() {
        t.push((code, vals))
    } else if t[i].0 == code {
        t.update(i, (code, vals))
    } else {
        table_upsert_from(t, code, vals, i + 1)
    }
}

/// Upserting a code that is absent from `t[i..]` appends the new entry.
pub proof fn lemma_upsert_absent(t: Seq<(u8, Seq<u8>)>, code: u8, vals: Seq<u8>, i: int)
    requires
        forall|j: int| i <= j < t.len() ==> t[j].0 != code,
    ensures
        table_upsert_from(t, code, vals, i) == t.push((code, vals)),
    decreases t.len() - i,
{
    if 0 <= i < t.len() {
        lemma_upsert_absent(t, code, vals, i + 1);
    }
}

/// Upserting into a well-formed table keeps it well formed.
pub proof fn lemma_upsert_wf(t: Seq<(u8, Seq<u8>)>, code: u8, vals: Seq<u8>, i: int)
    requires
        table_wf(t),
        0 <= i,
        forall|j: int| 0 <= j < i ==> t[j].0 != code,
    ensures
        table_wf(table_upsert_from(t, code, vals, i)),
    decreases t.len() - i,
{
    if i >= t.len() {
        let r = t.push((code, vals));
        assert forall|a: int, b: int| 0 <= a < b < r.len() implies r[a].0 != r[b].0 by {
            if b < t.len() {
                assert(t[a].0 != t[b].0);
            } else {
                assert(r[b].0 == code);
                assert(t[a].0 != code);
            }
        }
    } else if t[i].0 == code {
        let r = t.update(i, (code, vals));
        assert forall|a: int, b: int| 0 <= a < b < r.len() implies r[a].0 != r[b].0 by {
            assert(t[a].0 != t[b].0);
        }
    } else {
        lemma_upsert_wf(t, code, vals, i + 1);
    }
}

/// The monitor's parsed capabilities: an optional model name and the VCP
/// feature table. Built once from one capability string; read-only after.
#[derive(Debug, Clone, PartialEq)]
pub struct CapabilityModel {
    pub model_name: Option<Vec<u8>>,
    pub features: Vec<VcpFeatureEntry>,
}

pub open spec fn entries_view(es: Seq<VcpFeatureEntry>) -> Seq<(u8, Seq<u8>)> {
    es.map_values(|e: VcpFeatureEntry| (e.code, e.allowed_values@))
}

impl View for CapabilityModel {
    type V = ModelView;

    open spec fn view(&self) -> ModelView {
        ModelView {
            model_name: match self.model_name {
                Some(n) => Some(n@),
                None => None,
            },
            features: entries_view(self.features@),
        }
    }
}

impl ModelView {
    pub open spec fn lookup(self, code: u8) -> Option<Seq<u8>> {
        table_lookup(self.features, code, 0)
    }

    pub open spec fn wf(self) -> bool {
        table_wf(self.features)
    }
}

impl CapabilityModel {
    /// Read-only lookup of the feature entry carrying `code`.
    pub fn lookup(&self, code: u8) -> (r: Option<&VcpFeatureEntry>)
        ensures
            match r {
                Some(e) => e.code == code && self@.lookup(code) == Some(e.allowed_values@),
                None => self@.lookup(code) is None,
            },
    {
        lookup_from(&self.features, code, 0)
    }
}

fn lookup_from(es: &Vec<VcpFeatureEntry>, code: u8, i: usize) -> (r: Option<&VcpFeatureEntry>)
    requires
        i <= es@.len(),
    ensures
        match r {
            Some(e) => e.code == code && table_lookup(entries_view(es@), code, i as int) == Some(
                e.allowed_values@,
            ),
            None => table_lookup(entries_view(es@), code, i as int) is None,
        },
    decreases es@.len() - i,
{
    if i < es.len() {
        if es[i].code == code {
            Some(&es[i])
        } else {
            lookup_from(es, code, i + 1)
        }
    } else {
        None
    }
}

} // verus!

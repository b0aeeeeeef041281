//! Wire fingerprints: each `@fingerprint("<name>")` on a binding becomes a
//! read-only data entry holding the NUL-terminated name, under the symbol
//! `fp_<name>`, laid out in node-id order so every build is byte-identical.

use vstd::prelude::*;
use vstd::utf8::encode_utf8;

verus! {

/// Symbol-name prefix of every fingerprint entry.
pub const FINGERPRINT_SYMBOL_PREFIX: &'static str = "fp_";

/// Alignment of every fingerprint entry: C strings pack byte by byte.
pub const FINGERPRINT_ALIGN: u32 = 1;

/// Output section of a data entry.
#[derive(Copy, Clone, Debug, PartialEq, Eq, Structural)]
pub enum SectionKind {
    /// Immutable, initialised.
    Rodata,
    /// Mutable, initialised.
    Data,
    /// Mutable, uninitialised.
    Bss,
}

/// A data entry staged for emission.
#[derive(Clone, Debug)]
pub struct DataEntry {
    pub bytes: Vec<u8>,
    pub symbol_name: String,
    pub section: SectionKind,
    pub align: u32,
}

/// Mathematical value of a [`DataEntry`].
pub ghost struct DataEntryView {
    pub bytes: Seq<u8>,
    pub symbol_name: Seq<char>,
    pub section: SectionKind,
    pub align: u32,
}

impl View for DataEntry {
    type V = DataEntryView;

    open spec fn view(&self) -> DataEntryView {
        DataEntryView {
            bytes: self.bytes@,
            symbol_name: self.symbol_name@,
            section: self.section,
            align: self.align,
        }
    }
}

/// The entry of fingerprint `name`: its UTF-8 bytes and a NUL, in
/// `.rodata` under `fp_<name>`, byte-aligned.
pub open spec fn fingerprint_entry_spec(name: Seq<char>) -> DataEntryView {
    DataEntryView {
        bytes: encode_utf8(name).push(0u8),
        symbol_name: seq!['f', 'p', '_'] + name,
        section: SectionKind::Rodata,
        align: 1,
    }
}

/// Views of (node id, name) pairs.
pub open spec fn pair_views(v: Seq<(u32, String)>) -> Seq<(u32, Seq<char>)> {
    v.map_values(|p: (u32, String)| (p.0, p.1@))
}

/// Node ids appear at most once.
pub open spec fn distinct_ids(v: Seq<(u32, Seq<char>)>) -> bool {
    forall|i: int, j: int| 0 <= i < v.len() && 0 <= j < v.len() && i != j ==> v[i].0 != v[j].0
}

/// Node ids strictly increase.
pub open spec fn ids_increasing(v: Seq<(u32, Seq<char>)>) -> bool {
    forall|i: int, j: int| 0 <= i < j < v.len() ==> v[i].0 < v[j].0
}

/// `a` and `b` hold the same pairs.
pub open spec fn same_pairs(a: Seq<(u32, Seq<char>)>, b: Seq<(u32, Seq<char>)>) -> bool {
    forall|p: (u32, Seq<char>)| a.contains(p) <==> b.contains(p)
}

/// The fingerprint table's entries in node-id order.
pub fn sort_by_node_id(entries: &Vec<(u32, String)>) -> (r: Vec<(u32, String)>)
    requires
        distinct_ids(pair_views(entries@)),
    ensures
        r@.len() == entries@.len(),
        ids_increasing(pair_views(r@)),
        same_pairs(pair_views(r@), pair_views(entries@)),
{
    let ghost input = pair_views(entries@);
    let mut out: Vec<(u32, String)> = Vec::new();
    let mut i: usize = 0;
    while i < entries.len()
        invariant
            input == pair_views(entries@),
            distinct_ids(input),
            i <= entries@.len(),
            out@.len() == i,
            ids_increasing(pair_views(out@)),
            same_pairs(pair_views(out@), input.subrange(0, i as int)),
        decreases entries@.len() - i,
    {
        let id = entries[i].0;
        let name = entries[i].1.clone();
        let ghost x = (id, name@);
        assert(x == input[i as int]);
        let ghost before = pair_views(out@);
        proof {
            assert forall|j: int| 0 <= j < before.len() implies before[j].0 != id by {
                assert(before.contains(before[j]));
                assert(input.subrange(0, i as int).contains(before[j]));
                let k = choose|k: int| 0 <= k < i && input.subrange(0, i as int)[k] == before[j];
                assert(input[k] == before[j]);
            }
        }
        let mut p: usize = 0;
        while p < out.len() && out[p].0 < id
            invariant
                p <= out@.len(),
                before == pair_views(out@),
                forall|j: int| 0 <= j < p ==> out@[j].0 < id,
            decreases out@.len() - p,
        {
            p = p + 1;
        }
        out.insert(p, (id, name));
        proof {
            let after = pair_views(out@);
            assert(after =~= before.insert(p as int, x));
            assert forall|a: int, b: int| 0 <= a < b < after.len() implies after[a].0 < after[b].0 by {
                if p < before.len() {
                    assert(before[p as int].0 >= id);
                    assert(before[p as int].0 != id);
                }
                if a < p && b > p {
                    assert(after[b] == before[b - 1]);
                    if p < before.len() {
                        assert(before[p as int].0 <= before[b - 1].0 || b - 1 == p);
                    }
                }
                if a == p && b > p {
                    assert(after[b] == before[b - 1]);
                    assert(before[p as int].0 > id);
                    assert(b - 1 == p || before[p as int].0 < before[b - 1].0);
                }
            }
            let pre = input.subrange(0, i as int);
            let post = input.subrange(0, i + 1);
            assert(post =~= pre.push(x));
            assert forall|q: (u32, Seq<char>)| after.contains(q) <==> post.contains(q) by {
                if after.contains(q) {
                    let k = choose|k: int| 0 <= k < after.len() && after[k] == q;
                    if k < p {
                        assert(before[k] == q);
                        assert(before.contains(q));
                        assert(pre.contains(q));
                        let m = choose|m: int| 0 <= m < pre.len() && pre[m] == q;
                        assert(post[m] == q);
                    } else if k == p {
                        assert(post[i as int] == q);
                    } else {
                        assert(before[k - 1] == q);
                        assert(before.contains(q));
                        assert(pre.contains(q));
                        let m = choose|m: int| 0 <= m < pre.len() && pre[m] == q;
                        assert(post[m] == q);
                    }
                }
                if post.contains(q) {
                    let k = choose|k: int| 0 <= k < post.len() && post[k] == q;
                    if k == i {
                        assert(after[p as int] == q);
                    } else {
                        assert(pre[k] == q);
                        assert(pre.contains(q));
                        assert(before.contains(q));
                        let m = choose|m: int| 0 <= m < before.len() && before[m] == q;
                        if m < p {
                            assert(after[m] == q);
                        } else {
                            assert(after[m + 1] == q);
                        }
                    }
                }
            }
        }
        i = i + 1;
    }
    assert(input.subrange(0, entries@.len() as int) =~= input);
    out
}

/// Views of data entries.
pub open spec fn entry_views(v: Seq<DataEntry>) -> Seq<DataEntryView> {
    v.map_values(|e: DataEntry| e@)
}

/// The data entry of fingerprint `name` (see [`fingerprint_entry_spec`]).
pub fn fingerprint_entry(name: &String) -> (r: DataEntry)
    ensures
        r@ == fingerprint_entry_spec(name@),
{
    let src = name.as_str().as_bytes();
    let mut bytes: Vec<u8> = Vec::new();
    let mut k: usize = 0;
    while k < src.len()
        invariant
            k <= src@.len(),
            bytes@ == src@.subrange(0, k as int),
        decreases src@.len() - k,
    {
        bytes.push(src[k]);
        assert(src@.subrange(0, k + 1) =~= src@.subrange(0, k as int).push(src@[k as int]));
        k = k + 1;
    }
    assert(src@.subrange(0, src@.len() as int) =~= src@);
    bytes.push(0u8);
    let mut symbol_name = "fp_".to_owned();
    proof {
        reveal_strlit("fp_");
    }
    symbol_name.append(name.as_str());
    assert(symbol_name@ =~= seq!['f', 'p', '_'] + name@);
    assert(bytes@ =~= encode_utf8(name@).push(0u8));
    DataEntry { bytes, symbol_name, section: SectionKind::Rodata, align: FINGERPRINT_ALIGN }
}

/// The fingerprint data entries of a fingerprint table (node id of the
/// binding, fingerprint name), in node-id order.  An empty table gives no
/// entries.
pub fn populate_fingerprints(table: &Vec<(u32, String)>) -> (r: Vec<DataEntry>)
    requires
        distinct_ids(pair_views(table@)),
    ensures
        r@.len() == table@.len(),
        exists|order: Seq<(u32, Seq<char>)>|
            #![trigger ids_increasing(order)]
            ids_increasing(order) && same_pairs(order, pair_views(table@)) && order.len() == r@.len()
                && forall|k: int| 0 <= k < r@.len() ==> #[trigger] r@[k]@ == fingerprint_entry_spec(order[k].1),
{
    let ordered = sort_by_node_id(table);
    let mut out: Vec<DataEntry> = Vec::new();
    let mut k: usize = 0;
    while k < ordered.len()
        invariant
            k <= ordered@.len(),
            out@.len() == k,
            forall|j: int| 0 <= j < k ==> #[trigger] out@[j]@ == fingerprint_entry_spec(ordered@[j].1@),
        decreases ordered@.len() - k,
    {
        let e = fingerprint_entry(&ordered[k].1);
        out.push(e);
        k = k + 1;
    }
    let ghost order = pair_views(ordered@);
    assert(forall|j: int| 0 <= j < out@.len() ==> #[trigger] out@[j]@ == fingerprint_entry_spec(order[j].1));
    out
}

/// Fingerprint layout is deterministic: two node-id orderings of the same
/// fingerprint table, however the table was walked, are the same sequence,
/// so [`populate_fingerprints`] gives byte-identical entries for equal
/// tables.
pub proof fn lemma_fingerprint_order_unique(o1: Seq<(u32, Seq<char>)>, o2: Seq<(u32, Seq<char>)>)
    requires
        ids_increasing(o1),
        ids_increasing(o2),
        same_pairs(o1, o2),
    ensures
        o1 == o2,
    decreases o1.len(),
{
    if o1.len() == 0 {
        if o2.len() > 0 {
            assert(o2.contains(o2[0]));
        }
        assert(o1 =~= o2);
    } else if o2.len() == 0 {
        assert(o1.contains(o1[0]));
    } else {
        assert(o1.contains(o1[0]));
        assert(o2.contains(o2[0]));
        let m = choose|m: int| 0 <= m < o2.len() && o2[m] == o1[0];
        let m2 = choose|m2: int| 0 <= m2 < o1.len() && o1[m2] == o2[0];
        if m > 0 {
            assert(o2[0].0 < o1[0].0);
            if m2 > 0 {
                assert(o1[0].0 < o1[m2].0);
            }
        }
        assert(o1[0] == o2[0]);
        let (r1, r2) = (o1.drop_first(), o2.drop_first());
        assert forall|p: (u32, Seq<char>)| r1.contains(p) <==> r2.contains(p) by {
            if r1.contains(p) {
                let k = choose|k: int| 0 <= k < r1.len() && r1[k] == p;
                assert(o1[k + 1] == p);
                assert(o1.contains(p));
                let j = choose|j: int| 0 <= j < o2.len() && o2[j] == p;
                assert(o1[0].0 < p.0);
                if j == 0 {
                    assert(o2[0].0 == p.0);
                }
                assert(j > 0);
                assert(r2[j - 1] == p);
            }
            if r2.contains(p) {
                let k = choose|k: int| 0 <= k < r2.len() && r2[k] == p;
                assert(o2[k + 1] == p);
                assert(o2.contains(p));
                let j = choose|j: int| 0 <= j < o1.len() && o1[j] == p;
                assert(o2[0].0 < p.0);
                if j == 0 {
                    assert(o1[0].0 == p.0);
                }
                assert(j > 0);
                assert(r1[j - 1] == p);
            }
        }
        lemma_fingerprint_order_unique(r1, r2);
        assert(o1 =~= seq![o1[0]] + r1);
        assert(o2 =~= seq![o2[0]] + r2);
    }
}

} // verus!

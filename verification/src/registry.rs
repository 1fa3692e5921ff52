use vstd::prelude::*;
use crate::armor::is_armored;
use crate::header::{parse_header_spec, header_region, normalize_spec, HeaderModel};
use crate::text::chars_of;

verus! {

/// One document handed to the indexer: its location and its raw text, in
/// the order a deterministic sort of locations gives.
pub struct ScanDoc {
    pub path: String,
    pub text: String,
}

/// One registry entry: a dense zero-based index, the document's location,
/// and the document's recognized header fields.
pub struct RegistryEntry {
    pub rgb_number: usize,
    pub inscription_id: String,
    pub contract_id: Option<String>,
    pub consignment_id: Option<String>,
    pub schema_id: Option<String>,
    pub contract_type: Option<String>,
    pub checksum: Option<String>,
    pub version: Option<String>,
}

/// The subsequence of documents that carry a marker pair, in order.
pub open spec fn armored_of(docs: Seq<ScanDoc>) -> Seq<ScanDoc>
    decreases docs.len(),
{
    if docs.len() == 0 {
        Seq::empty()
    } else {
        let pre = armored_of(docs.drop_last());
        if is_armored(docs.last().text@) {
            pre.push(docs.last())
        } else {
            pre
        }
    }
}

/// The header model of a raw document text.
pub open spec fn doc_model(text: Seq<char>) -> HeaderModel {
    parse_header_spec(header_region(normalize_spec(text)))
}

/// The entry's fields agree with the parsed header model of its document:
/// the identifier is the `Contract` value, or failing that the plain `Id`.
pub open spec fn entry_matches(e: RegistryEntry, m: HeaderModel) -> bool {
    &&& e.contract_id.deep_view() == (if m.contract is Some {
        m.contract
    } else {
        m.plain_id
    })
    &&& e.consignment_id.deep_view() == m.consignment
    &&& e.schema_id.deep_view() == m.schema
    &&& e.contract_type.deep_view() == m.contract_type
    &&& e.checksum.deep_view() == m.checksum
    &&& e.version.deep_view() == m.version
}

/// Clone an optional field value.
fn clone_opt(o: &Option<String>) -> (r: Option<String>)
    ensures
        r.deep_view() == o.deep_view(),
{
    match o {
        Some(s) => Some(s.clone()),
        None => None,
    }
}

/// Build the registry: the armored documents, in the given order, each
/// assigned the next dense zero-based index and its parsed header fields.
/// Documents without a marker pair contribute no entry and consume no index.
pub fn build_registry(docs: &Vec<ScanDoc>) -> (r: Vec<RegistryEntry>)
    ensures
        r@.len() == armored_of(docs@).len(),
        forall|k: int|
            0 <= k < r@.len() ==> {
                &&& (#[trigger] r@[k]).rgb_number == k
                &&& r@[k].inscription_id@ == armored_of(docs@)[k].path@
                &&& entry_matches(r@[k], doc_model(armored_of(docs@)[k].text@))
            },
{
    let n = docs.len();
    let mut r: Vec<RegistryEntry> = Vec::new();
    let mut i: usize = 0;
    proof {
        assert(docs@.take(0) =~= Seq::<ScanDoc>::empty());
    }
    while i < n
        invariant
            n == docs@.len(),
            i <= n,
            r@.len() == armored_of(docs@.take(i as int)).len(),
            r@.len() <= i,
            forall|k: int|
                0 <= k < r@.len() ==> {
                    &&& (#[trigger] r@[k]).rgb_number == k
                    &&& r@[k].inscription_id@ == armored_of(docs@.take(i as int))[k].path@
                    &&& entry_matches(r@[k], doc_model(armored_of(docs@.take(i as int))[k].text@))
                },
        decreases n - i,
    {
        proof {
            assert(docs@.take(i + 1).drop_last() =~= docs@.take(i as int));
            assert(docs@.take(i + 1).last() == docs@[i as int]);
        }
        let cs = chars_of(docs[i].text.as_str());
        if crate::armor::has_marker_pair(&cs) {
            let t = crate::header::normalize(&cs);
            let (head, _body) = crate::header::split_regions(&t);
            let f = crate::header::parse_header(&head);
            let contract_id: Option<String> = match &f.contract {
                Some(c) => Some(c.clone()),
                None => clone_opt(&f.plain_id),
            };
            let e = RegistryEntry {
                rgb_number: r.len(),
                inscription_id: docs[i].path.clone(),
                contract_id,
                consignment_id: clone_opt(&f.consignment_id),
                schema_id: clone_opt(&f.schema),
                contract_type: clone_opt(&f.contract_type),
                checksum: clone_opt(&f.checksum),
                version: clone_opt(&f.version),
            };
            r.push(e);
        }
        i += 1;
    }
    proof {
        assert(docs@.take(i as int) =~= docs@);
    }
    r
}

/// Documents without a marker pair contribute no entries: a scan over any
/// set of them yields an empty registry, whatever their number or order.
pub proof fn lemma_no_markers_no_entries(docs: Seq<ScanDoc>)
    requires
        forall|k: int| 0 <= k < docs.len() ==> !is_armored(#[trigger] docs[k].text@),
    ensures
        armored_of(docs).len() == 0,
    decreases docs.len(),
{
    if docs.len() > 0 {
        assert(forall|k: int|
            0 <= k < docs.drop_last().len() ==> !is_armored(#[trigger] docs.drop_last()[k].text@));
        lemma_no_markers_no_entries(docs.drop_last());
    }
}

} // verus!

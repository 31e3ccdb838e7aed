//! Per-segment random access to precomputed per-document features.
//!
//! For every document a segment stores an optional `u64` per feature
//! field, and an optional pair of `u64` halves for each of the three hash
//! fields. A missing value means the feature contributes nothing for that
//! document. The two halves of a hash field combine into one 128-bit
//! fingerprint.

use vstd::prelude::*;
use crate::collector::Hashes;

verus! {

/// The fast fields a document can carry.
#[derive(Clone, Copy, Debug, PartialEq, Eq, Structural)]
pub enum FastField {
    HostCentrality,
    PageCentrality,
    IsHomepage,
    FetchTimeMs,
    LastUpdated,
    NumTrackers,
    Region,
    SiteHash,
    TitleHash,
    UrlHash,
}

impl FastField {
    /// The hash fields store two halves; the others one value.
    pub open spec fn is_hash_field(self) -> bool {
        self is SiteHash || self is TitleHash || self is UrlHash
    }
}

/// The stored fast-field values of one document.
#[derive(Clone, Copy, Debug, PartialEq, Eq)]
pub struct DocFastFields {
    pub host_centrality: Option<u64>,
    pub page_centrality: Option<u64>,
    pub is_homepage: Option<u64>,
    pub fetch_time_ms: Option<u64>,
    pub last_updated: Option<u64>,
    pub num_trackers: Option<u64>,
    pub region: Option<u64>,
    pub site_hash: Option<(u64, u64)>,
    pub title_hash: Option<(u64, u64)>,
    pub url_hash: Option<(u64, u64)>,
}

/// The single stored value of a non-hash field.
pub open spec fn single_value(d: DocFastFields, field: FastField) -> Option<u64> {
    match field {
        FastField::HostCentrality => d.host_centrality,
        FastField::PageCentrality => d.page_centrality,
        FastField::IsHomepage => d.is_homepage,
        FastField::FetchTimeMs => d.fetch_time_ms,
        FastField::LastUpdated => d.last_updated,
        FastField::NumTrackers => d.num_trackers,
        FastField::Region => d.region,
        FastField::SiteHash => None,
        FastField::TitleHash => None,
        FastField::UrlHash => None,
    }
}

/// The two stored halves of a hash field.
pub open spec fn pair_value(d: DocFastFields, field: FastField) -> Option<(u64, u64)> {
    match field {
        FastField::SiteHash => d.site_hash,
        FastField::TitleHash => d.title_hash,
        FastField::UrlHash => d.url_hash,
        _ => None,
    }
}

/// Combines the two stored 64-bit halves into one 128-bit fingerprint.
pub open spec fn combined(p: (u64, u64)) -> u128 {
    ((p.0 as u128) * 0x1_0000_0000_0000_0000 + (p.1 as u128)) as u128
}

/// Combines two 64-bit halves into one 128-bit fingerprint.
pub fn combine_u64s(hash: (u64, u64)) -> (r: u128)
    ensures
        r == combined(hash),
{
    (hash.0 as u128) * 0x1_0000_0000_0000_0000u128 + (hash.1 as u128)
}

/// Fast-field store of one index segment, indexed by local document id.
pub struct SegmentCache {
    pub docs: Vec<DocFastFields>,
}

impl SegmentCache {
    /// All three hash fields are present for document `doc`.
    pub open spec fn has_hashes(&self, doc: u32) -> bool {
        &&& (doc as int) < self.docs@.len()
        &&& self.docs@[doc as int].site_hash is Some
        &&& self.docs@[doc as int].title_hash is Some
        &&& self.docs@[doc as int].url_hash is Some
    }

    /// The combined fingerprints of document `doc`.
    pub open spec fn hashes_of(&self, doc: u32) -> Hashes {
        Hashes {
            site: combined(self.docs@[doc as int].site_hash->0),
            title: combined(self.docs@[doc as int].title_hash->0),
            url: combined(self.docs@[doc as int].url_hash->0),
        }
    }

    /// Reads the single value of a non-hash field; `None` when the
    /// document is unknown, the field is a hash field, or no value is
    /// stored.
    pub fn get_u64(&self, field: &FastField, doc: u32) -> (r: Option<u64>)
        ensures
            r == if (doc as int) < self.docs@.len() {
                single_value(self.docs@[doc as int], *field)
            } else {
                None::<u64>
            },
    {
        if (doc as usize) < self.docs.len() {
            let d = &self.docs[doc as usize];
            match field {
                FastField::HostCentrality => d.host_centrality,
                FastField::PageCentrality => d.page_centrality,
                FastField::IsHomepage => d.is_homepage,
                FastField::FetchTimeMs => d.fetch_time_ms,
                FastField::LastUpdated => d.last_updated,
                FastField::NumTrackers => d.num_trackers,
                FastField::Region => d.region,
                FastField::SiteHash => None,
                FastField::TitleHash => None,
                FastField::UrlHash => None,
            }
        } else {
            None
        }
    }

    /// Reads the two halves of a hash field; `None` when the document is
    /// unknown, the field is not a hash field, or no value is stored.
    pub fn get_u64s(&self, field: &FastField, doc: u32) -> (r: Option<Vec<u64>>)
        ensures
            match r {
                Some(v) => {
                    let p = pair_value(self.docs@[doc as int], *field);
                    (doc as int) < self.docs@.len() && p is Some && v@.len() == 2
                        && v@[0] == (p->0).0 && v@[1] == (p->0).1
                },
                None => !((doc as int) < self.docs@.len()
                    && pair_value(self.docs@[doc as int], *field) is Some),
            },
    {
        if (doc as usize) < self.docs.len() {
            let d = &self.docs[doc as usize];
            let pair = match field {
                FastField::SiteHash => d.site_hash,
                FastField::TitleHash => d.title_hash,
                FastField::UrlHash => d.url_hash,
                _ => None,
            };
            match pair {
                Some(p) => Some(vec![p.0, p.1]),
                None => None,
            }
        } else {
            None
        }
    }
}

/// Fast-field caches of all segments, indexed by segment ordinal.
pub struct FastFieldCache {
    pub segments: Vec<SegmentCache>,
}

impl FastFieldCache {
    /// Borrows the cache of one segment.
    pub fn get_segment(&self, segment: u32) -> (r: &SegmentCache)
        requires
            (segment as int) < self.segments@.len(),
        ensures
            *r == self.segments@[segment as int],
    {
        &self.segments[segment as usize]
    }
}

} // verus!

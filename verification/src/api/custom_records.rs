//! The user's own DNS records.
use vstd::prelude::*;
use vstd::string::*;

use crate::blocklist::suffix;
use crate::blocklist::suffix::normalised;
use crate::config::CustomRecordConfig;
use crate::error::FeriteError;
use crate::text;

verus! {

impl Clone for CustomRecordConfig {
    fn clone(&self) -> (r: CustomRecordConfig)
        ensures
            r == *self,
    {
        CustomRecordConfig {
            domain: self.domain.clone(),
            record_type: self.record_type.clone(),
            value: self.value.clone(),
            ttl: self.ttl,
        }
    }
}

/// The record under its canonical name, under which it is stored, cached and listed.
pub fn normalise_record(record: CustomRecordConfig) -> (r: CustomRecordConfig)
    ensures
        r.domain@ == normalised(record.domain@),
        r == (CustomRecordConfig { domain: r.domain, ..record }),
{
    let domain = suffix::normalise_domain(record.domain.as_str());
    CustomRecordConfig { domain, ..record }
}

/// The records of a domain.
pub open spec fn of_domain(records: Seq<CustomRecordConfig>, domain: Seq<char>) -> Seq<CustomRecordConfig> {
    records.filter(|r: CustomRecordConfig| r.domain@ == domain)
}

/// The records of a domain, to put them back if a change cannot be stored.
pub fn prior_records(records: &Vec<CustomRecordConfig>, domain: &str) -> (r: Vec<CustomRecordConfig>)
    ensures
        r@ == of_domain(records@, domain@),
{
    let ghost f = |r: CustomRecordConfig| r.domain@ == domain@;
    let mut out: Vec<CustomRecordConfig> = Vec::new();
    let mut i: usize = 0;
    assert(records@.take(0).filter(f) =~= Seq::<CustomRecordConfig>::empty()) by {
        reveal(Seq::filter);
    }
    while i < records.len()
        invariant
            i <= records@.len(),
            f == (|r: CustomRecordConfig| r.domain@ == domain@),
            out@ == records@.take(i as int).filter(f),
        decreases records@.len() - i,
    {
        proof {
            assert(records@.take(i + 1) =~= records@.take(i as int).push(records@[i as int]));
            text::lemma_filter_push(records@.take(i as int), records@[i as int], f);
        }
        if text::str_same(records[i].domain.as_str(), domain) {
            out.push(records[i].clone());
        }
        i = i + 1;
    }
    assert(records@.take(records@.len() as int) =~= records@);
    out
}

/// The error that a domain has no record.
pub fn no_custom_record(domain: &str) -> (r: FeriteError)
    ensures
        r matches FeriteError::NotFound(m) && m@ == "no custom record for '"@ + domain@ + "'"@,
{
    let mut m = String::new();
    m.append("no custom record for '");
    m.append(domain);
    m.append("'");
    assert(m@ =~= "no custom record for '"@ + domain@ + "'"@);
    FeriteError::NotFound(m)
}

}

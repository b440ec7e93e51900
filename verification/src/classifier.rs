//! Classification of raw addresses by family, and the assembly of their
//! attributes into per-family records.

use vstd::prelude::*;
use vstd::string::StringExecFns;
use crate::types::{
    bucket_of, lemma_appended_record_obeys_rules, records_view, table_obeys_rules, table_view,
    AddressRecord, AttributeKind, IfAddrs, RecordView, TableView, AF_ALG, AF_INET, AF_INET6,
    AF_NETLINK, AF_PACKET, AF_VSOCK,
};

verus! {

broadcast use vstd::std_specs::hash::group_hash_axioms;

/// What one socket address of the operating system can be read as: for each
/// capability, the text of that interpretation where it succeeds.
#[derive(Clone, Debug, PartialEq, Eq)]
pub struct RawAddress {
    /// As a link-layer address.
    pub link: Option<String>,
    /// As a netlink address.
    pub netlink: Option<String>,
    /// As an address between a virtual machine and its host.
    pub vsock: Option<String>,
    /// As an IPv4 socket address.
    pub inet: Option<String>,
    /// As an address of the kernel's crypto sockets.
    pub alg: Option<String>,
    /// As an IPv6 socket address.
    pub inet6: Option<String>,
}

/// The family and text that the first successful interpretation of `raw`
/// gives, the capabilities tried in their fixed order.
pub open spec fn first_interpretation(raw: RawAddress) -> Option<(u8, Seq<char>)> {
    if raw.link is Some {
        Some((AF_PACKET, raw.link.unwrap()@))
    } else if raw.netlink is Some {
        Some((AF_NETLINK, raw.netlink.unwrap()@))
    } else if raw.vsock is Some {
        Some((AF_VSOCK, raw.vsock.unwrap()@))
    } else if raw.inet is Some {
        Some((AF_INET, raw.inet.unwrap()@))
    } else if raw.alg is Some {
        Some((AF_ALG, raw.alg.unwrap()@))
    } else if raw.inet6 is Some {
        Some((AF_INET6, raw.inet6.unwrap()@))
    } else {
        None
    }
}

/// The family and text under which `raw` counts when it plays the role
/// `kind`. A link-layer address counts only as the address itself, and an
/// address that no capability can read does not count at all.
pub open spec fn classification(kind: AttributeKind, raw: RawAddress) -> Option<(u8, Seq<char>)> {
    match first_interpretation(raw) {
        Some((family, text)) => if family == AF_PACKET && kind != AttributeKind::Address {
            None
        } else {
            Some((family, text))
        },
        None => None,
    }
}

/// The table after the text of one attribute was added for `family`. While
/// no attribute of the source address was seen yet (`any` is false) a new
/// record is opened at the end of the family's records; afterwards the
/// attribute joins the last record of the family.
pub open spec fn table_with_attribute(
    table: TableView,
    family: i32,
    kind: AttributeKind,
    text: Seq<char>,
    any: bool,
) -> TableView {
    let bucket = bucket_of(table, family);
    if any {
        table.insert(family, bucket.update(bucket.len() - 1, bucket.last().insert(kind, text)))
    } else {
        table.insert(family, bucket.push(RecordView::empty().insert(kind, text)))
    }
}

/// Determines the family of one raw address that plays the role `kind`, and
/// its text: the first interpretation that succeeds wins. `None` means that
/// the address is skipped.
pub fn classify(kind: AttributeKind, raw: &RawAddress) -> (r: Option<(u8, String)>)
    ensures
        r is Some <==> classification(kind, *raw) is Some,
        r matches Some((family, text)) ==> classification(kind, *raw) == Some((family, text@)),
{
    if let Some(text) = &raw.link {
        match kind {
            AttributeKind::Address => Some((AF_PACKET, text.clone())),
            _ => None,
        }
    } else if let Some(text) = &raw.netlink {
        Some((AF_NETLINK, text.clone()))
    } else if let Some(text) = &raw.vsock {
        Some((AF_VSOCK, text.clone()))
    } else if let Some(text) = &raw.inet {
        Some((AF_INET, text.clone()))
    } else if let Some(text) = &raw.alg {
        Some((AF_ALG, text.clone()))
    } else if let Some(text) = &raw.inet6 {
        Some((AF_INET6, text.clone()))
    } else {
        None
    }
}

/// Adds the text `addr` of the attribute `class` to the records of the
/// family `af_class`. The first attribute of a source address opens a new
/// record and sets `any`; each further one joins that record, which must
/// then be the last of the family.
pub fn add_to_types_mat(
    af_class: u8,
    addr: &str,
    class: AttributeKind,
    types_mat: &mut IfAddrs,
    any: &mut bool,
)
    requires
        *old(any) ==> bucket_of(table_view(old(types_mat)@), af_class as i32).len() > 0,
    ensures
        *final(any),
        table_view(final(types_mat)@) == table_with_attribute(
            table_view(old(types_mat)@),
            af_class as i32,
            class,
            addr@,
            *old(any),
        ),
{
    let key: i32 = af_class as i32;
    let ghost before = table_view(types_mat@);
    let mut bucket: Vec<AddressRecord> = match types_mat.remove(&key) {
        Some(found) => found,
        None => Vec::new(),
    };
    assert(records_view(bucket@) =~= bucket_of(before, key));
    let ghost old_bucket = bucket@;
    let mut record: AddressRecord = if *any {
        match bucket.pop() {
            Some(last) => last,
            None => AddressRecord::new(),
        }
    } else {
        *any = true;
        AddressRecord::new()
    };
    record.insert(class, String::from_str(addr));
    bucket.push(record);
    let ghost new_bucket = bucket@;
    types_mat.insert(key, bucket);
    proof {
        let after = table_view(types_mat@);
        let expected = table_with_attribute(before, key, class, addr@, *old(any));
        assert(after[key] =~= expected[key]);
        assert(after =~= expected);
    }
}

/// Opening a record that holds the address alone keeps a table within the
/// rules, whatever the family.
pub proof fn lemma_address_record_obeys_rules(table: TableView, family: i32, text: Seq<char>)
    requires
        table_obeys_rules(table),
    ensures
        table_obeys_rules(
            table_with_attribute(table, family, AttributeKind::Address, text, false),
        ),
{
    let record = RecordView::empty().insert(AttributeKind::Address, text);
    assert(record.contains_key(AttributeKind::Address));
    lemma_appended_record_obeys_rules(table, family, record);
}

} // verus!

//! The record structure that every platform's addresses are normalised to.

use vstd::prelude::*;
use vstd::string::StringExecFns;
use std::collections::HashMap;

verus! {

/// Family code of IPv4 addresses.
pub const AF_INET: u8 = 2;

/// Family code of IPv6 addresses.
pub const AF_INET6: u8 = 10;

/// Family code of netlink addresses.
pub const AF_NETLINK: u8 = 16;

/// Family code of link-layer (hardware) addresses.
pub const AF_PACKET: u8 = 17;

/// Family code of the kernel's crypto sockets.
pub const AF_ALG: u8 = 38;

/// Family code of the addresses between virtual machines and their host.
pub const AF_VSOCK: u8 = 40;

/// The role that a text plays for one address.
#[derive(Clone, Copy, Debug, PartialEq, Eq, Structural)]
pub enum AttributeKind {
    /// The address itself.
    Address,
    /// Its network mask.
    Netmask,
    /// Its broadcast address.
    Broadcast,
    /// The address at the other end of a point-to-point link.
    Peer,
}

/// What one address record says: for each attribute present, its text.
pub type RecordView = Map<AttributeKind, Seq<char>>;

/// What one address table says: for each family present, its records in the
/// order in which they were found.
pub type TableView = Map<i32, Seq<RecordView>>;

/// The attributes of one concrete address of an interface.
#[derive(Clone, Debug, PartialEq, Eq)]
pub struct AddressRecord {
    pub addr: Option<String>,
    pub mask: Option<String>,
    pub broadcast: Option<String>,
    pub peer: Option<String>,
}

/// The addresses of one interface: for each address family, its records.
pub type IfAddrs = HashMap<i32, Vec<AddressRecord>>;

/// Interface names by their numeric index.
pub type IfacesByIndex = HashMap<usize, String>;

impl AttributeKind {
    /// The key under which callers find this attribute.
    pub open spec fn key_text(self) -> Seq<char> {
        match self {
            AttributeKind::Address => "addr"@,
            AttributeKind::Netmask => "mask"@,
            AttributeKind::Broadcast => "broadcast"@,
            AttributeKind::Peer => "peer"@,
        }
    }

    /// The key under which callers find this attribute.
    pub fn key(self) -> (r: &'static str)
        ensures
            r@ == self.key_text(),
    {
        match self {
            AttributeKind::Address => "addr",
            AttributeKind::Netmask => "mask",
            AttributeKind::Broadcast => "broadcast",
            AttributeKind::Peer => "peer",
        }
    }
}

impl AddressRecord {
    /// The field that holds the attribute `kind`.
    pub open spec fn slot(self, kind: AttributeKind) -> Option<String> {
        match kind {
            AttributeKind::Address => self.addr,
            AttributeKind::Netmask => self.mask,
            AttributeKind::Broadcast => self.broadcast,
            AttributeKind::Peer => self.peer,
        }
    }

    /// A record without any attribute.
    pub fn new() -> (r: AddressRecord)
        ensures
            r@ == RecordView::empty(),
    {
        let r = AddressRecord { addr: None, mask: None, broadcast: None, peer: None };
        assert(r@ =~= RecordView::empty());
        r
    }

    /// Sets the attribute `kind` to `text`, replacing an earlier text.
    pub fn insert(&mut self, kind: AttributeKind, text: String)
        ensures
            final(self)@ == old(self)@.insert(kind, text@),
    {
        match kind {
            AttributeKind::Address => {
                self.addr = Some(text);
            },
            AttributeKind::Netmask => {
                self.mask = Some(text);
            },
            AttributeKind::Broadcast => {
                self.broadcast = Some(text);
            },
            AttributeKind::Peer => {
                self.peer = Some(text);
            },
        }
        assert(self@ =~= old(self)@.insert(kind, text@));
    }

    /// The text of the attribute `kind`, if the record has it.
    pub fn get(&self, kind: AttributeKind) -> (r: Option<&String>)
        ensures
            r is Some <==> self@.contains_key(kind),
            r matches Some(text) ==> text@ == self@[kind],
    {
        match kind {
            AttributeKind::Address => self.addr.as_ref(),
            AttributeKind::Netmask => self.mask.as_ref(),
            AttributeKind::Broadcast => self.broadcast.as_ref(),
            AttributeKind::Peer => self.peer.as_ref(),
        }
    }

    /// Whether the record has the attribute `kind`.
    pub fn contains(&self, kind: AttributeKind) -> (r: bool)
        ensures
            r == self@.contains_key(kind),
    {
        self.get(kind).is_some()
    }

    /// The record as (key, text) pairs: one pair for each attribute
    /// present, in the order address, mask, broadcast, peer.
    pub fn pairs(&self) -> (r: Vec<(String, String)>)
        ensures
            pairs_view(r@) == record_pairs(self@),
    {
        let mut out: Vec<(String, String)> = Vec::new();
        assert(pairs_view(out@) =~= Seq::<(Seq<char>, Seq<char>)>::empty());
        self.push_pair(AttributeKind::Address, &mut out);
        self.push_pair(AttributeKind::Netmask, &mut out);
        self.push_pair(AttributeKind::Broadcast, &mut out);
        self.push_pair(AttributeKind::Peer, &mut out);
        out
    }

    fn push_pair(&self, kind: AttributeKind, out: &mut Vec<(String, String)>)
        ensures
            pairs_view(final(out)@) == pairs_view(old(out)@) + kind_pair(self@, kind),
    {
        match self.get(kind) {
            Some(text) => {
                out.push((String::from_str(kind.key()), text.clone()));
                assert(pairs_view(out@) =~= pairs_view(old(out)@) + kind_pair(self@, kind));
            },
            None => {
                assert(pairs_view(out@) =~= pairs_view(old(out)@) + kind_pair(self@, kind));
            },
        }
    }
}

/// What a list of (key, text) pairs says.
pub open spec fn pairs_view(pairs: Seq<(String, String)>) -> Seq<(Seq<char>, Seq<char>)> {
    Seq::new(pairs.len(), |i: int| (pairs[i].0@, pairs[i].1@))
}

/// The pair of the attribute `kind`, where the record has it.
pub open spec fn kind_pair(record: RecordView, kind: AttributeKind) -> Seq<
    (Seq<char>, Seq<char>),
> {
    if record.contains_key(kind) {
        seq![(kind.key_text(), record[kind])]
    } else {
        Seq::empty()
    }
}

/// The (key, text) pairs of a record, in the order address, mask,
/// broadcast, peer.
pub open spec fn record_pairs(record: RecordView) -> Seq<(Seq<char>, Seq<char>)> {
    kind_pair(record, AttributeKind::Address) + kind_pair(record, AttributeKind::Netmask)
        + kind_pair(record, AttributeKind::Broadcast) + kind_pair(record, AttributeKind::Peer)
}

impl View for AddressRecord {
    type V = RecordView;

    open spec fn view(&self) -> RecordView {
        Map::new(
            |kind: AttributeKind| self.slot(kind) is Some,
            |kind: AttributeKind| self.slot(kind).unwrap()@,
        )
    }
}

/// What a sequence of records says, record by record.
pub open spec fn records_view(records: Seq<AddressRecord>) -> Seq<RecordView> {
    Seq::new(records.len(), |i: int| records[i]@)
}

/// What a table says: its families, and what the records of each say.
pub open spec fn table_view(table: Map<i32, Vec<AddressRecord>>) -> TableView {
    Map::new(|family: i32| table.contains_key(family), |family: i32| records_view(table[family]@))
}

/// The records that `table` holds for `family`: none where the family is
/// absent.
pub open spec fn bucket_of(table: TableView, family: i32) -> Seq<RecordView> {
    if table.contains_key(family) {
        table[family]
    } else {
        Seq::empty()
    }
}

/// What holds of every record filed under `family`: it has at least one
/// attribute, a link-layer record has nothing but the address itself, and a
/// mask never stands without its address.
pub open spec fn record_obeys_rules(family: i32, record: RecordView) -> bool {
    &&& exists|kind: AttributeKind| record.contains_key(kind)
    &&& family == AF_PACKET as i32 ==> forall|kind: AttributeKind|
        record.contains_key(kind) ==> kind == AttributeKind::Address
    &&& record.contains_key(AttributeKind::Netmask) ==> record.contains_key(
        AttributeKind::Address,
    )
}

/// What holds of every table of this library: no family is present without
/// a record, and each record obeys the rules of its family.
pub open spec fn table_obeys_rules(table: TableView) -> bool {
    &&& forall|family: i32| table.contains_key(family) ==> (#[trigger] table[family]).len() > 0
    &&& forall|family: i32, i: int|
        table.contains_key(family) && 0 <= i < table[family].len() ==> record_obeys_rules(
            family,
            #[trigger] table[family][i],
        )
}

/// Appending a record that obeys its family's rules keeps a table within
/// the rules.
pub proof fn lemma_appended_record_obeys_rules(table: TableView, family: i32, record: RecordView)
    requires
        table_obeys_rules(table),
        record_obeys_rules(family, record),
    ensures
        table_obeys_rules(table.insert(family, bucket_of(table, family).push(record))),
{
    let after = table.insert(family, bucket_of(table, family).push(record));
    assert forall|f: i32, i: int|
        after.contains_key(f) && 0 <= i < after[f].len() implies record_obeys_rules(
        f,
        #[trigger] after[f][i],
    ) by {
        if f == family && i < bucket_of(table, family).len() {
            assert(after[f][i] == table[f][i]);
        } else if f != family {
            assert(after[f][i] == table[f][i]);
        }
    }
}

} // verus!

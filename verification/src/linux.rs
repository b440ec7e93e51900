//! The POSIX enumerator: interface names and addresses out of the list of
//! (interface, address) entries that the operating system hands out.

use vstd::prelude::*;
use vstd::string::{StringExecFns, StringSliceAdditionalSpecFns};
use std::collections::HashMap;
use crate::classifier::{add_to_types_mat, classification, classify, RawAddress};
use crate::common::{InterfaceDisplay, NetifacesError, SystemCall};
use crate::listing::{
    distinct, distinct_names, index_view, lemma_distinct_names_cover, names_view,
};
use crate::os::{
    address_list, alg_text, errno_code, inet6_text, inet_text, link_text, name_index_list,
    netlink_text, reading, text_of, vsock_text, OsEntry,
};
use nix::{errno::Errno, sys::socket::SockaddrStorage};
use crate::types::{
    bucket_of, lemma_appended_record_obeys_rules, record_obeys_rules, table_obeys_rules,
    table_view, AddressRecord, AttributeKind, IfAddrs, IfacesByIndex, RecordView, TableView,
    AF_ALG, AF_INET, AF_INET6, AF_NETLINK, AF_PACKET, AF_VSOCK,
};

verus! {

broadcast use vstd::std_specs::hash::group_hash_axioms;

/// One entry of the operating system's address list: an interface name and
/// up to four raw addresses that belong to one address of that interface.
#[derive(Clone, Debug, PartialEq, Eq)]
pub struct InterfaceEntry {
    pub interface_name: String,
    pub address: Option<RawAddress>,
    pub netmask: Option<RawAddress>,
    pub broadcast: Option<RawAddress>,
    pub destination: Option<RawAddress>,
}

impl InterfaceEntry {
    /// The raw address that plays the role `kind` in this entry.
    pub open spec fn attribute(self, kind: AttributeKind) -> Option<RawAddress> {
        match kind {
            AttributeKind::Address => self.address,
            AttributeKind::Netmask => self.netmask,
            AttributeKind::Broadcast => self.broadcast,
            AttributeKind::Peer => self.destination,
        }
    }

    /// Family and text of the attribute `kind`, where the entry has it and
    /// it can be classified.
    pub open spec fn classified(self, kind: AttributeKind) -> Option<(u8, Seq<char>)> {
        match self.attribute(kind) {
            Some(raw) => classification(kind, raw),
            None => None,
        }
    }

    /// The family under which the record of this entry is filed: that of the
    /// first attribute able to open a record. The address, the broadcast
    /// address and the peer can open one, in this order; a mask cannot.
    pub open spec fn record_family(self) -> Option<u8> {
        if self.classified(AttributeKind::Address) is Some {
            Some(self.classified(AttributeKind::Address).unwrap().0)
        } else if self.classified(AttributeKind::Broadcast) is Some {
            Some(self.classified(AttributeKind::Broadcast).unwrap().0)
        } else if self.classified(AttributeKind::Peer) is Some {
            Some(self.classified(AttributeKind::Peer).unwrap().0)
        } else {
            None
        }
    }

    /// Whether the attribute `kind` enters the record of this entry: it must
    /// be classified under the family of the record, and a mask enters only
    /// beside an address.
    pub open spec fn admits(self, kind: AttributeKind) -> bool {
        &&& self.record_family() is Some
        &&& self.classified(kind) is Some
        &&& self.classified(kind).unwrap().0 == self.record_family().unwrap()
        &&& kind == AttributeKind::Netmask ==> self.classified(AttributeKind::Address) is Some
    }

    /// The record that this entry gives, meaningful where
    /// `record_family` is `Some`.
    pub open spec fn record(self) -> RecordView {
        Map::new(
            |kind: AttributeKind| self.admits(kind),
            |kind: AttributeKind| self.classified(kind).unwrap().1,
        )
    }
}

/// The table after the record of `entry` was appended to its family.
pub open spec fn table_with_entry(table: TableView, entry: InterfaceEntry) -> TableView {
    match entry.record_family() {
        Some(family) => table.insert(
            family as i32,
            bucket_of(table, family as i32).push(entry.record()),
        ),
        None => table,
    }
}

/// The table that the entries named `name` give, taken in their order.
pub open spec fn interface_table(entries: Seq<InterfaceEntry>, name: Seq<char>) -> TableView
    decreases entries.len(),
{
    if entries.len() == 0 {
        TableView::empty()
    } else {
        let front = interface_table(entries.drop_last(), name);
        if entries.last().interface_name@ == name {
            table_with_entry(front, entries.last())
        } else {
            front
        }
    }
}

/// Whether some entry carries the interface name `name`.
pub open spec fn has_interface(entries: Seq<InterfaceEntry>, name: Seq<char>) -> bool {
    exists|i: int| 0 <= i < entries.len() && (#[trigger] entries[i]).interface_name@ == name
}

/// The record that is being filled for one entry.
struct Slot {
    /// Whether the record was opened.
    any: bool,
    /// The family it was opened under.
    family: u8,
    /// Whether it holds the address itself.
    primary: bool,
}

/// Whether an attribute classified under `family` enters the record in the
/// state `slot`.
spec fn slot_admits(slot: Slot, kind: AttributeKind, family: u8) -> bool {
    if slot.any {
        family == slot.family && (kind == AttributeKind::Netmask ==> slot.primary)
    } else {
        kind != AttributeKind::Netmask
    }
}

/// The state of the record after the attribute `kind` was offered.
spec fn slot_after(slot: Slot, kind: AttributeKind, found: Option<(u8, Seq<char>)>) -> Slot {
    match found {
        Some((family, text)) => if slot_admits(slot, kind, family) {
            Slot {
                any: true,
                family,
                primary: slot.primary || kind == AttributeKind::Address,
            }
        } else {
            slot
        },
        None => slot,
    }
}

/// The table after the attribute `kind` was offered.
spec fn table_after(
    table: TableView,
    slot: Slot,
    kind: AttributeKind,
    found: Option<(u8, Seq<char>)>,
) -> TableView {
    match found {
        Some((family, text)) => if slot_admits(slot, kind, family) {
            crate::classifier::table_with_attribute(table, family as i32, kind, text, slot.any)
        } else {
            table
        },
        None => table,
    }
}

/// Offers one attribute of an entry to the record that is being filled.
fn add_attribute(
    kind: AttributeKind,
    raw: &Option<RawAddress>,
    table: &mut IfAddrs,
    slot: &mut Slot,
)
    requires
        old(slot).any ==> bucket_of(table_view(old(table)@), old(slot).family as i32).len() > 0,
    ensures
        *final(slot) == slot_after(
            *old(slot),
            kind,
            match *raw {
                Some(a) => classification(kind, a),
                None => None,
            },
        ),
        table_view(final(table)@) == table_after(
            table_view(old(table)@),
            *old(slot),
            kind,
            match *raw {
                Some(a) => classification(kind, a),
                None => None,
            },
        ),
        final(slot).any ==> bucket_of(table_view(final(table)@), final(slot).family as i32).len()
            > 0,
{
    if let Some(address) = raw {
        if let Some((family, text)) = classify(kind, address) {
            let is_mask: bool = match kind {
                AttributeKind::Netmask => true,
                _ => false,
            };
            let is_address: bool = match kind {
                AttributeKind::Address => true,
                _ => false,
            };
            let admitted: bool = if slot.any {
                family == slot.family && (!is_mask || slot.primary)
            } else {
                !is_mask
            };
            if admitted {
                let mut any: bool = slot.any;
                add_to_types_mat(family, text.as_str(), kind, table, &mut any);
                slot.any = any;
                slot.family = family;
                slot.primary = slot.primary || is_address;
            }
        }
    }
}

/// Appends the record of one entry to the table: its attributes are offered
/// in the order address, mask, broadcast, peer, and those admitted end up in
/// one record under the family of the first.
pub fn add_entry(entry: &InterfaceEntry, table: &mut IfAddrs)
    ensures
        table_view(final(table)@) == table_with_entry(table_view(old(table)@), *entry),
{
    let ghost start = table_view(table@);
    let mut slot = Slot { any: false, family: 0, primary: false };
    add_attribute(AttributeKind::Address, &entry.address, table, &mut slot);
    add_attribute(AttributeKind::Netmask, &entry.netmask, table, &mut slot);
    add_attribute(AttributeKind::Broadcast, &entry.broadcast, table, &mut slot);
    add_attribute(AttributeKind::Peer, &entry.destination, table, &mut slot);
    proof {
        lemma_four_attributes(start, *entry);
    }
}

/// Offering the four attributes of an entry one after the other, to a record
/// not yet opened, appends the record of the entry.
proof fn lemma_four_attributes(start: TableView, entry: InterfaceEntry)
    ensures
        ({
            let s0 = Slot { any: false, family: 0, primary: false };
            let c1 = entry.classified(AttributeKind::Address);
            let c2 = entry.classified(AttributeKind::Netmask);
            let c3 = entry.classified(AttributeKind::Broadcast);
            let c4 = entry.classified(AttributeKind::Peer);
            let t1 = table_after(start, s0, AttributeKind::Address, c1);
            let s1 = slot_after(s0, AttributeKind::Address, c1);
            let t2 = table_after(t1, s1, AttributeKind::Netmask, c2);
            let s2 = slot_after(s1, AttributeKind::Netmask, c2);
            let t3 = table_after(t2, s2, AttributeKind::Broadcast, c3);
            let s3 = slot_after(s2, AttributeKind::Broadcast, c3);
            let t4 = table_after(t3, s3, AttributeKind::Peer, c4);
            t4 == table_with_entry(start, entry)
        }),
{
    let s0 = Slot { any: false, family: 0, primary: false };
    let c1 = entry.classified(AttributeKind::Address);
    let c2 = entry.classified(AttributeKind::Netmask);
    let c3 = entry.classified(AttributeKind::Broadcast);
    let c4 = entry.classified(AttributeKind::Peer);
    let t1 = table_after(start, s0, AttributeKind::Address, c1);
    let s1 = slot_after(s0, AttributeKind::Address, c1);
    let t2 = table_after(t1, s1, AttributeKind::Netmask, c2);
    let s2 = slot_after(s1, AttributeKind::Netmask, c2);
    let t3 = table_after(t2, s2, AttributeKind::Broadcast, c3);
    let s3 = slot_after(s2, AttributeKind::Broadcast, c3);
    let t4 = table_after(t3, s3, AttributeKind::Peer, c4);
    let r1 = partial_record(entry, 1);
    let r2 = partial_record(entry, 2);
    let r3 = partial_record(entry, 3);
    let r4 = partial_record(entry, 4);
    assert(filed(start, s1, r1, t1)) by {
        if s1.any {
            assert(entry.admits(AttributeKind::Address));
            assert(r1 =~= RecordView::empty().insert(AttributeKind::Address, c1.unwrap().1));
        } else {
            assert(!entry.admits(AttributeKind::Address));
        }
    }
    lemma_attribute_step(start, entry, s1, t1, AttributeKind::Netmask, 1);
    lemma_attribute_step(start, entry, s2, t2, AttributeKind::Broadcast, 2);
    lemma_attribute_step(start, entry, s3, t3, AttributeKind::Peer, 3);
    let s4 = slot_after(s3, AttributeKind::Peer, c4);
    assert(filed(start, s4, r4, t4));
    assert(s4.any == entry.record_family() is Some);
    if s4.any {
        assert(s4.family == entry.record_family().unwrap());
        assert(r4 =~= entry.record());
    }
}

/// The position of an attribute in the order in which they are offered.
spec fn rank(kind: AttributeKind) -> int {
    match kind {
        AttributeKind::Address => 0,
        AttributeKind::Netmask => 1,
        AttributeKind::Broadcast => 2,
        AttributeKind::Peer => 3,
    }
}

/// The record of `entry` cut down to its first `count` attributes.
spec fn partial_record(entry: InterfaceEntry, count: int) -> RecordView {
    Map::new(
        |kind: AttributeKind| rank(kind) < count && entry.admits(kind),
        |kind: AttributeKind| entry.classified(kind).unwrap().1,
    )
}

/// The first `count` attributes of `entry` that can open a record give the
/// state `slot`.
spec fn slot_matches(entry: InterfaceEntry, slot: Slot, count: int) -> bool {
    let a = entry.classified(AttributeKind::Address);
    let b = entry.classified(AttributeKind::Broadcast);
    let p = entry.classified(AttributeKind::Peer);
    &&& slot.primary == (a is Some)
    &&& slot.any == (a is Some || (count > 2 && b is Some) || (count > 3 && p is Some))
    &&& slot.any ==> entry.record_family() == Some(slot.family)
}

/// The table holds `start` and, where the record was opened, the record
/// `record` at the end of its family.
spec fn filed(start: TableView, slot: Slot, record: RecordView, table: TableView) -> bool {
    if slot.any {
        table == start.insert(
            slot.family as i32,
            bucket_of(start, slot.family as i32).push(record),
        )
    } else {
        table == start
    }
}

proof fn lemma_attribute_step(
    start: TableView,
    entry: InterfaceEntry,
    slot: Slot,
    table: TableView,
    kind: AttributeKind,
    count: int,
)
    requires
        count == rank(kind),
        1 <= count <= 3,
        slot_matches(entry, slot, count),
        filed(start, slot, partial_record(entry, count), table),
    ensures
        slot_matches(entry, slot_after(slot, kind, entry.classified(kind)), count + 1),
        filed(
            start,
            slot_after(slot, kind, entry.classified(kind)),
            partial_record(entry, count + 1),
            table_after(table, slot, kind, entry.classified(kind)),
        ),
{
    let found = entry.classified(kind);
    let next = slot_after(slot, kind, found);
    let after = table_after(table, slot, kind, found);
    let before_record = partial_record(entry, count);
    let record = partial_record(entry, count + 1);
    if found is Some && slot_admits(slot, kind, found.unwrap().0) {
        let family = found.unwrap().0;
        let text = found.unwrap().1;
        assert(entry.admits(kind));
        if slot.any {
            assert(record =~= before_record.insert(kind, text));
            let bucket = bucket_of(start, family as i32).push(before_record);
            assert(bucket.update(bucket.len() - 1, bucket.last().insert(kind, text))
                =~= bucket_of(start, family as i32).push(record));
        } else {
            assert(before_record =~= RecordView::empty());
            assert(record =~= RecordView::empty().insert(kind, text));
        }
        assert(after =~= start.insert(family as i32, bucket_of(start, family as i32).push(record)));
    } else {
        assert(!entry.admits(kind));
        assert(record =~= before_record);
    }
}

/// The addresses of the interface named `if_name` in one snapshot of the
/// operating system's address list: for every family, the records of the
/// matching entries in the order of the list. Fails with `NotFound` when no
/// entry carries the name; names are compared exactly.
pub fn ifaddresses_of(entries: &Vec<InterfaceEntry>, if_name: &str) -> (r: Result<
    IfAddrs,
    NetifacesError,
>)
    ensures
        has_interface(entries@, if_name@) ==> (r matches Ok(table) && table_view(table@)
            == interface_table(entries@, if_name@)),
        !has_interface(entries@, if_name@) ==> (r matches Err(e) && e
            == NetifacesError::NotFound),
        r matches Ok(table) ==> table_obeys_rules(table_view(table@)),
{
    let name = String::from_str(if_name);
    let mut types_mat: IfAddrs = HashMap::new();
    let mut found_any: bool = false;
    let mut i: usize = 0;
    assert(table_view(types_mat@) =~= TableView::empty());
    while i < entries.len()
        invariant
            i <= entries.len(),
            name@ == if_name@,
            table_view(types_mat@) == interface_table(entries@.take(i as int), if_name@),
            found_any == has_interface(entries@.take(i as int), if_name@),
        decreases entries.len() - i,
    {
        let ghost seen = entries@.take(i as int);
        let ghost next = entries@.take(i as int + 1);
        proof {
            assert(next.drop_last() =~= seen);
            assert(next.last() == entries@[i as int]);
            assert forall|j: int| 0 <= j < seen.len() implies seen[j] == next[j] by {}
        }
        if entries[i].interface_name == name {
            found_any = true;
            add_entry(&entries[i], &mut types_mat);
            assert(next[i as int].interface_name@ == if_name@);
        } else {
            proof {
                if has_interface(next, if_name@) {
                    let j = choose|j: int|
                        0 <= j < next.len() && (#[trigger] next[j]).interface_name@ == if_name@;
                    assert(seen[j].interface_name@ == if_name@);
                }
            }
        }
        proof {
            if has_interface(seen, if_name@) {
                let j = choose|j: int|
                    0 <= j < seen.len() && (#[trigger] seen[j]).interface_name@ == if_name@;
                assert(next[j].interface_name@ == if_name@);
            }
        }
        i = i + 1;
    }
    assert(entries@.take(i as int) =~= entries@);
    proof {
        lemma_interface_table_obeys_rules(entries@, if_name@);
    }
    if found_any {
        Ok(types_mat)
    } else {
        Err(NetifacesError::NotFound)
    }
}

/// The interface names of the entries, entry by entry.
pub open spec fn entry_names(entries: Seq<InterfaceEntry>) -> Seq<Seq<char>> {
    Seq::new(entries.len(), |i: int| entries[i].interface_name@)
}

/// The names of the interfaces that occur in one snapshot of the address
/// list, each once, in the order in which they first occur.
pub fn interface_names(entries: &Vec<InterfaceEntry>) -> (r: Vec<String>)
    ensures
        names_view(r@) == distinct_names(entry_names(entries@)),
{
    let mut names: Vec<String> = Vec::new();
    let mut i: usize = 0;
    while i < entries.len()
        invariant
            i <= entries.len(),
            names@.len() == i,
            forall|j: int| 0 <= j < i ==> (#[trigger] names@[j])@ == entries@[j].interface_name@,
        decreases entries.len() - i,
    {
        names.push(entries[i].interface_name.clone());
        i = i + 1;
    }
    assert(names_view(names@) =~= entry_names(entries@));
    distinct(&names)
}

/// The table that a list of (index, name) pairs gives: each index with the
/// name of the last pair that carries it.
pub open spec fn index_table(pairs: Seq<(u32, String)>) -> Map<usize, Seq<char>>
    decreases pairs.len(),
{
    if pairs.len() == 0 {
        Map::empty()
    } else {
        index_table(pairs.drop_last()).insert(pairs.last().0 as usize, pairs.last().1@)
    }
}

/// Files the interface names of one name/index table by their index.
pub fn interfaces_by_index_of(pairs: &Vec<(u32, String)>) -> (r: IfacesByIndex)
    ensures
        index_view(r@) == index_table(pairs@),
{
    let mut interfaces: IfacesByIndex = HashMap::new();
    let mut i: usize = 0;
    assert(index_view(interfaces@) =~= index_table(pairs@.take(0)));
    while i < pairs.len()
        invariant
            i <= pairs.len(),
            index_view(interfaces@) == index_table(pairs@.take(i as int)),
        decreases pairs.len() - i,
    {
        let ghost before = index_view(interfaces@);
        let iface_index: usize = pairs[i].0 as usize;
        let name: String = pairs[i].1.clone();
        interfaces.insert(iface_index, name);
        proof {
            let next = pairs@.take(i as int + 1);
            assert(next.drop_last() =~= pairs@.take(i as int));
            assert(next.last() == pairs@[i as int]);
            assert(index_view(interfaces@) =~= before.insert(iface_index, pairs@[i as int].1@));
        }
        i = i + 1;
    }
    assert(pairs@.take(i as int) =~= pairs@);
    interfaces
}

/// The record of an entry obeys the rules of the family it is filed under.
pub proof fn lemma_entry_record_obeys_rules(entry: InterfaceEntry)
    requires
        entry.record_family() is Some,
    ensures
        record_obeys_rules(entry.record_family().unwrap() as i32, entry.record()),
{
    let family = entry.record_family().unwrap();
    let record = entry.record();
    if entry.classified(AttributeKind::Address) is Some {
        assert(entry.admits(AttributeKind::Address));
        assert(record.contains_key(AttributeKind::Address));
    } else if entry.classified(AttributeKind::Broadcast) is Some {
        assert(entry.admits(AttributeKind::Broadcast));
        assert(record.contains_key(AttributeKind::Broadcast));
    } else {
        assert(entry.admits(AttributeKind::Peer));
        assert(record.contains_key(AttributeKind::Peer));
    }
    assert forall|kind: AttributeKind|
        family == AF_PACKET && record.contains_key(kind) implies kind
        == AttributeKind::Address by {
        assert(entry.admits(kind));
    }
}

/// Every table that the address list gives for an interface obeys the rules
/// of this library's tables.
pub proof fn lemma_interface_table_obeys_rules(entries: Seq<InterfaceEntry>, name: Seq<char>)
    ensures
        table_obeys_rules(interface_table(entries, name)),
    decreases entries.len(),
{
    if entries.len() > 0 {
        let front = interface_table(entries.drop_last(), name);
        let entry = entries.last();
        lemma_interface_table_obeys_rules(entries.drop_last(), name);
        if entry.interface_name@ == name && entry.record_family() is Some {
            lemma_entry_record_obeys_rules(entry);
            let family = entry.record_family().unwrap() as i32;
            lemma_appended_record_obeys_rules(front, family, entry.record());
        }
    }
}

/// Under the link-layer family a record holds no attribute but the address
/// itself.
pub proof fn lemma_link_records_hold_only_the_address(
    entries: Seq<InterfaceEntry>,
    name: Seq<char>,
    i: int,
    kind: AttributeKind,
)
    requires
        interface_table(entries, name).contains_key(AF_PACKET as i32),
        0 <= i < interface_table(entries, name)[AF_PACKET as i32].len(),
        interface_table(entries, name)[AF_PACKET as i32][i].contains_key(kind),
    ensures
        kind == AttributeKind::Address,
{
    lemma_interface_table_obeys_rules(entries, name);
    let table = interface_table(entries, name);
    assert(record_obeys_rules(AF_PACKET as i32, table[AF_PACKET as i32][i]));
}

/// A record that holds a network mask holds the address it belongs to: no
/// mask is recorded without its address, under any family.
pub proof fn lemma_mask_comes_with_address(
    entries: Seq<InterfaceEntry>,
    name: Seq<char>,
    family: i32,
    i: int,
)
    requires
        interface_table(entries, name).contains_key(family),
        0 <= i < interface_table(entries, name)[family].len(),
        interface_table(entries, name)[family][i].contains_key(AttributeKind::Netmask),
    ensures
        interface_table(entries, name)[family][i].contains_key(AttributeKind::Address),
{
    lemma_interface_table_obeys_rules(entries, name);
    let table = interface_table(entries, name);
    assert(record_obeys_rules(family, table[family][i]));
}

/// Two tables computed for the same interface from the same snapshot say
/// the same: the same families, the same records, the same texts.
pub proof fn lemma_addresses_deterministic(
    entries: Seq<InterfaceEntry>,
    name: Seq<char>,
    first: Map<i32, Vec<AddressRecord>>,
    second: Map<i32, Vec<AddressRecord>>,
)
    requires
        table_view(first) == interface_table(entries, name),
        table_view(second) == interface_table(entries, name),
    ensures
        table_view(first) == table_view(second),
        forall|family: i32| first.contains_key(family) == second.contains_key(family),
        forall|family: i32| #[trigger]
            first.contains_key(family) ==> first[family]@.len() == second[family]@.len(),
        forall|family: i32, i: int|
            first.contains_key(family) && 0 <= i < first[family]@.len() ==> (
            #[trigger] first[family]@[i])@ == second[family]@[i]@,
{
    assert forall|family: i32| first.contains_key(family) == second.contains_key(family) by {
        assert(table_view(first).contains_key(family) == first.contains_key(family));
        assert(table_view(second).contains_key(family) == second.contains_key(family));
    }
    assert forall|family: i32| #[trigger] first.contains_key(family) implies first[family]@.len()
        == second[family]@.len() && forall|i: int|
        0 <= i < first[family]@.len() ==> (#[trigger] first[family]@[i])@
            == second[family]@[i]@ by {
        assert(table_view(first)[family] == table_view(second)[family]);
        assert(table_view(first)[family].len() == first[family]@.len());
        assert(table_view(second)[family].len() == second[family]@.len());
        assert forall|i: int| 0 <= i < first[family]@.len() implies (
        #[trigger] first[family]@[i])@ == second[family]@[i]@ by {
            assert(table_view(first)[family][i] == first[family]@[i]@);
            assert(table_view(second)[family][i] == second[family]@[i]@);
        }
    }
}

/// Probes one socket address of the operating system with every capability.
fn raw_address_of(addr: &SockaddrStorage) -> (r: RawAddress)
    ensures
        reads_as(r, *addr),
{
    RawAddress {
        link: link_text(addr),
        netlink: netlink_text(addr),
        vsock: vsock_text(addr),
        inet: inet_text(addr),
        alg: alg_text(addr),
        inet6: inet6_text(addr),
    }
}

fn raw_attribute_of(addr: &Option<SockaddrStorage>) -> (r: Option<RawAddress>)
    ensures
        attribute_reads_as(r, *addr),
{
    match addr {
        Some(a) => Some(raw_address_of(a)),
        None => None,
    }
}

/// Takes a snapshot of the operating system's address list, read entry by entry.
pub fn address_snapshot() -> (r: Result<Vec<InterfaceEntry>, NetifacesError>)
    ensures
        r matches Ok(entries) ==> (exists|found: Seq<OsEntry>| #[trigger]
            snapshot_reads_as(entries@, found)),
        r matches Err(e) ==> e matches NetifacesError::SystemError {
            call: SystemCall::InterfaceAddresses,
            ..
        },
{
    let outcome = address_list();
    let r = snapshot_from(&outcome);
    proof {
        if let Ok(found) = outcome {
            assert(snapshot_reads_as(r->Ok_0@, found@));
        }
    }
    r
}

/// Whether `raw` holds the readings of the socket address `addr`: for each
/// capability, the text of that reading where the address can be read so,
/// and nothing where it cannot.
pub open spec fn reads_as(raw: RawAddress, addr: SockaddrStorage) -> bool {
    &&& text_of(raw.link) == reading(addr, AF_PACKET)
    &&& text_of(raw.netlink) == reading(addr, AF_NETLINK)
    &&& text_of(raw.vsock) == reading(addr, AF_VSOCK)
    &&& text_of(raw.inet) == reading(addr, AF_INET)
    &&& text_of(raw.alg) == reading(addr, AF_ALG)
    &&& text_of(raw.inet6) == reading(addr, AF_INET6)
}

/// Whether `raw` holds the readings of the address `addr`, and is absent
/// where the address is.
pub open spec fn attribute_reads_as(
    raw: Option<RawAddress>,
    addr: Option<SockaddrStorage>,
) -> bool {
    match addr {
        Some(a) => raw is Some && reads_as(raw.unwrap(), a),
        None => raw is None,
    }
}

/// Whether `entry` is what one item of the system's address list reads as:
/// the same interface name, and each of the four addresses by its
/// readings.
pub open spec fn entry_reads_as(entry: InterfaceEntry, item: OsEntry) -> bool {
    &&& entry.interface_name@ == item.0@
    &&& attribute_reads_as(entry.address, item.1)
    &&& attribute_reads_as(entry.netmask, item.2)
    &&& attribute_reads_as(entry.broadcast, item.3)
    &&& attribute_reads_as(entry.destination, item.4)
}

/// Whether `entries` is what the system's address list `found` reads as:
/// item by item, in the order of the list.
pub open spec fn snapshot_reads_as(entries: Seq<InterfaceEntry>, found: Seq<OsEntry>) -> bool {
    &&& entries.len() == found.len()
    &&& forall|i: int| 0 <= i < found.len() ==> entry_reads_as(#[trigger] entries[i], found[i])
}

/// Reads one item of the system's address list.
pub fn entry_of(item: &OsEntry) -> (r: InterfaceEntry)
    ensures
        entry_reads_as(r, *item),
{
    InterfaceEntry {
        interface_name: item.0.clone(),
        address: raw_attribute_of(&item.1),
        netmask: raw_attribute_of(&item.2),
        broadcast: raw_attribute_of(&item.3),
        destination: raw_attribute_of(&item.4),
    }
}

/// Turns the answer of the operating system to the query for its address
/// list into a snapshot: a list is read item by item, and a failure
/// becomes a `SystemError` of that query.
pub fn snapshot_from(outcome: &Result<Vec<OsEntry>, Errno>) -> (r: Result<
    Vec<InterfaceEntry>,
    NetifacesError,
>)
    ensures
        outcome matches Ok(found) ==> (r matches Ok(entries) && snapshot_reads_as(
            entries@,
            found@,
        )),
        outcome is Err ==> (r matches Err(e) && e matches NetifacesError::SystemError {
            call: SystemCall::InterfaceAddresses,
            ..
        }),
{
    match outcome {
        Ok(found) => {
            let mut entries: Vec<InterfaceEntry> = Vec::new();
            let mut i: usize = 0;
            while i < found.len()
                invariant
                    i <= found.len(),
                    entries@.len() == i,
                    forall|j: int| 0 <= j < i ==> entry_reads_as(#[trigger] entries@[j], found@[j]),
                decreases found.len() - i,
            {
                entries.push(entry_of(&found[i]));
                i = i + 1;
            }
            Ok(entries)
        },
        Err(errno) => Err(
            NetifacesError::SystemError {
                call: SystemCall::InterfaceAddresses,
                code: errno_code(*errno),
            },
        ),
    }
}

/// The names of the interfaces that the operating system lists at the
/// moment of the call, each once. On POSIX an interface has one name, so
/// the display mode makes no difference.
pub fn posix_interfaces(_display: InterfaceDisplay) -> (r: Result<Vec<String>, NetifacesError>)
    ensures
        r matches Ok(names) ==> exists|entries: Seq<InterfaceEntry>|
            names_view(names@) == distinct_names(#[trigger] entry_names(entries)),
        r matches Ok(names) ==> names_view(names@).no_duplicates(),
        r matches Err(e) ==> e matches NetifacesError::SystemError {
            call: SystemCall::InterfaceAddresses,
            ..
        },
{
    match address_snapshot() {
        Ok(entries) => {
            let names = interface_names(&entries);
            proof {
                lemma_distinct_names_cover(entry_names(entries@));
            }
            Ok(names)
        },
        Err(e) => Err(e),
    }
}

/// The interface names by their index, as the operating system's
/// name/index table has them at the moment of the call. The table is read
/// on its own and may differ from the address list in the interfaces it
/// knows.
pub fn posix_interfaces_by_index(_display: InterfaceDisplay) -> (r: Result<
    IfacesByIndex,
    NetifacesError,
>)
    ensures
        r matches Ok(table) ==> exists|pairs: Seq<(u32, String)>|
            index_view(table@) == #[trigger] index_table(pairs),
        r matches Err(e) ==> e matches NetifacesError::SystemError {
            call: SystemCall::InterfaceIndexes,
            ..
        },
{
    match name_index_list() {
        Ok(pairs) => Ok(interfaces_by_index_of(&pairs)),
        Err(e) => Err(
            NetifacesError::SystemError { call: SystemCall::InterfaceIndexes, code: errno_code(e) },
        ),
    }
}

/// The addresses of the interface named `if_name`, as the operating system
/// lists them at the moment of the call.
pub fn posix_ifaddresses(if_name: &str) -> (r: Result<IfAddrs, NetifacesError>)
    ensures
        r matches Ok(table) ==> exists|entries: Seq<InterfaceEntry>|
            has_interface(entries, if_name@) && table_view(table@) == #[trigger] interface_table(
                entries,
                if_name@,
            ),
        r matches Ok(table) ==> table_obeys_rules(table_view(table@)),
        r matches Err(e) ==> e == NetifacesError::NotFound
            || e matches NetifacesError::SystemError {
            call: SystemCall::InterfaceAddresses,
            ..
        },
{
    match address_snapshot() {
        Ok(entries) => ifaddresses_of(&entries, if_name),
        Err(e) => Err(e),
    }
}

/// The size of the field that holds an interface name in a request to the
/// operating system, the terminating zero included.
pub const IFNAMSIZ: usize = 16;

/// The flag that the operating system sets on an interface that is
/// administratively up and able to transmit.
pub const IFF_RUNNING: i16 = 0x40;

/// How the query for an interface's flags went.
#[derive(Clone, Copy, Debug, PartialEq, Eq, Structural)]
pub enum FlagsOutcome {
    /// The socket to ask on could not be opened.
    SocketFailed { code: i32 },
    /// The query itself failed.
    QueryFailed { code: i32 },
    /// The query returned these flags.
    Flags { flags: i16 },
}

/// The name field of a flags request: the bytes of the name, then zeros up
/// to the size of the field.
pub open spec fn name_field(name: Seq<u8>) -> Seq<u8> {
    Seq::new(
        IFNAMSIZ as nat,
        |i: int|
            if i < name.len() {
                name[i]
            } else {
                0u8
            },
    )
}

/// What reading the flags of the interface with the name bytes `name`
/// gives, the query having gone as `outcome` says.
pub open spec fn flags_read(name: Seq<u8>, outcome: FlagsOutcome) -> Result<i16, NetifacesError> {
    if name.len() >= IFNAMSIZ {
        Err(NetifacesError::NotFound)
    } else {
        match outcome {
            FlagsOutcome::SocketFailed { code } => Err(
                NetifacesError::SystemError { call: SystemCall::Socket, code },
            ),
            FlagsOutcome::QueryFailed { code } => Err(
                NetifacesError::SystemError { call: SystemCall::InterfaceFlags, code },
            ),
            FlagsOutcome::Flags { flags } => Ok(flags),
        }
    }
}

/// Whether the flags say that the interface is running.
pub open spec fn is_running(flags: i16) -> bool {
    flags & IFF_RUNNING != 0
}

/// Fills the name field of a flags request. A name that leaves no room for
/// the terminating zero names no interface.
pub fn interface_name_field(if_name: &str) -> (r: Result<Vec<u8>, NetifacesError>)
    ensures
        if_name.spec_bytes().len() >= IFNAMSIZ ==> r == Err::<Vec<u8>, NetifacesError>(
            NetifacesError::NotFound,
        ),
        if_name.spec_bytes().len() < IFNAMSIZ ==> (r matches Ok(field) && field@ == name_field(
            if_name.spec_bytes(),
        )),
{
    let bytes: &[u8] = if_name.as_bytes();
    if bytes.len() >= IFNAMSIZ {
        return Err(NetifacesError::NotFound);
    }
    let mut field: Vec<u8> = Vec::new();
    let mut i: usize = 0;
    while i < IFNAMSIZ
        invariant
            i <= IFNAMSIZ,
            bytes@ == if_name.spec_bytes(),
            bytes@.len() < IFNAMSIZ,
            field@.len() == i,
            forall|j: int| 0 <= j < i ==> field@[j] == name_field(bytes@)[j],
        decreases IFNAMSIZ - i,
    {
        if i < bytes.len() {
            field.push(bytes[i]);
        } else {
            field.push(0);
        }
        i = i + 1;
    }
    assert(field@ =~= name_field(bytes@));
    Ok(field)
}

/// The flags of the interface named `if_name`, the query on the operating
/// system having gone as `outcome` says. The name is judged first: one too
/// long for the name field is not found, whatever the outcome.
pub fn read_interface_flags(if_name: &str, outcome: FlagsOutcome) -> (r: Result<
    i16,
    NetifacesError,
>)
    ensures
        r == flags_read(if_name.spec_bytes(), outcome),
{
    if if_name.as_bytes().len() >= IFNAMSIZ {
        return Err(NetifacesError::NotFound);
    }
    match outcome {
        FlagsOutcome::SocketFailed { code } => Err(
            NetifacesError::SystemError { call: SystemCall::Socket, code },
        ),
        FlagsOutcome::QueryFailed { code } => Err(
            NetifacesError::SystemError { call: SystemCall::InterfaceFlags, code },
        ),
        FlagsOutcome::Flags { flags } => Ok(flags),
    }
}

/// Whether the interface named `if_name` is up, the query for its flags
/// having gone as `outcome` says: it is up when it is running, which asks
/// for more than being administratively up.
pub fn posix_interface_is_up(if_name: &str, outcome: FlagsOutcome) -> (r: Result<
    bool,
    NetifacesError,
>)
    ensures
        r == match flags_read(if_name.spec_bytes(), outcome) {
            Ok(flags) => Ok::<bool, NetifacesError>(is_running(flags)),
            Err(e) => Err::<bool, NetifacesError>(e),
        },
{
    match read_interface_flags(if_name, outcome) {
        Ok(flags) => Ok((flags & IFF_RUNNING) != 0),
        Err(e) => Err(e),
    }
}

} // verus!

//! The fixed-layout tables of the older Windows interfaces: the two-call
//! protocol that sizes their buffers, the walk over their records, and the
//! address records that they give.

use vstd::prelude::*;
use vstd::slice::slice_subrange;
use vstd::string::StringExecFns;
use crate::classifier::{add_to_types_mat, table_with_attribute};
use crate::codec::{
    byte_swapped, ip_to_string, ipv4_text, mac_text, mac_to_string, network_to_host_order,
};
use crate::common::NetifacesError;
use crate::text::utf16_text;
use crate::types::{
    bucket_of, lemma_appended_record_obeys_rules, table_obeys_rules, table_view, AttributeKind,
    IfAddrs, RecordView, TableView, AF_INET, AF_PACKET,
};

verus! {

broadcast use vstd::std_specs::hash::group_hash_axioms;

/// The status of a call that succeeded.
pub const NO_ERROR: u32 = 0;

/// The status by which the adapter-info query says that the buffer is too
/// small, and which is therefore expected of the sizing call.
pub const ERROR_BUFFER_OVERFLOW: u32 = 111;

/// The status by which the address-table query says the same.
pub const ERROR_INSUFFICIENT_BUFFER: u32 = 122;

/// The size of the header of the address table: the number of its rows.
pub const IP_TABLE_HEADER_SIZE: usize = 4;

/// The size of one row of the address table.
pub const IP_ROW_SIZE: usize = 24;

/// What to do after one call of a sized query.
#[derive(Clone, Copy, Debug, PartialEq, Eq, Structural)]
pub enum QueryStep {
    /// Allocate a buffer of this many bytes and call again.
    Allocate { size: u32 },
    /// The buffer holds the table.
    Filled,
    /// The query failed with this status.
    Failed { code: u32 },
}

/// The size that the adapter-info table needs, as the sizing call reported
/// it. The sizing call is made without a buffer, so the only status that
/// carries a size is the one that says "too small"; every other status is
/// handed back as the error.
pub fn adapter_info_size_required(status: u32, size: u32) -> (r: Result<u32, u32>)
    ensures
        r == if status == ERROR_BUFFER_OVERFLOW {
            Ok::<u32, u32>(size)
        } else {
            Err::<u32, u32>(status)
        },
{
    if status != ERROR_BUFFER_OVERFLOW {
        Err(status)
    } else {
        Ok(size)
    }
}

/// Decides the next step of a sized query from the status and the size
/// that a call reported, `too_small` being the status by which this query
/// asks for a larger buffer. The caller repeats the query until it is
/// filled or has failed, and releases its buffer either way.
pub fn sized_query_step(too_small: u32, status: u32, size: u32) -> (r: QueryStep)
    ensures
        r == if status == too_small {
            QueryStep::Allocate { size }
        } else if status == NO_ERROR {
            QueryStep::Filled
        } else {
            QueryStep::Failed { code: status }
        },
{
    if status == too_small {
        QueryStep::Allocate { size }
    } else if status == NO_ERROR {
        QueryStep::Filled
    } else {
        QueryStep::Failed { code: status }
    }
}

/// One row of the address table. The three addresses are kept as they
/// stand in the table, in network byte order.
#[derive(Clone, Copy, Debug, PartialEq, Eq, Structural)]
pub struct IpAddressRow {
    pub address: u32,
    pub index: u32,
    pub mask: u32,
    pub broadcast: u32,
}

/// The 32-bit value that stands at `offset`, least significant byte first.
pub open spec fn u32_at(buffer: Seq<u8>, offset: int) -> u32 {
    (buffer[offset] as int + buffer[offset + 1] as int * 0x100 + buffer[offset + 2] as int
        * 0x1_0000 + buffer[offset + 3] as int * 0x100_0000) as u32
}

/// The row that stands at `offset`.
pub open spec fn row_at(buffer: Seq<u8>, offset: int) -> IpAddressRow {
    IpAddressRow {
        address: u32_at(buffer, offset),
        index: u32_at(buffer, offset + 4),
        mask: u32_at(buffer, offset + 8),
        broadcast: u32_at(buffer, offset + 12),
    }
}

/// The rows of the address table in `buffer`: as many as the header
/// counts, one after the other behind it. `None` where the buffer cannot
/// hold its header or the rows that the header counts.
pub open spec fn table_rows(buffer: Seq<u8>) -> Option<Seq<IpAddressRow>> {
    if buffer.len() < IP_TABLE_HEADER_SIZE {
        None
    } else if IP_TABLE_HEADER_SIZE + u32_at(buffer, 0) * IP_ROW_SIZE > buffer.len() {
        None
    } else {
        Some(
            Seq::new(
                u32_at(buffer, 0) as nat,
                |i: int| row_at(buffer, IP_TABLE_HEADER_SIZE + i * IP_ROW_SIZE),
            ),
        )
    }
}

/// Reads the 32-bit value at `offset`.
pub fn read_u32(buffer: &[u8], offset: usize) -> (r: u32)
    requires
        offset + 4 <= buffer@.len(),
    ensures
        r == u32_at(buffer@, offset as int),
{
    let b0: u32 = buffer[offset] as u32;
    let b1: u32 = buffer[offset + 1] as u32;
    let b2: u32 = buffer[offset + 2] as u32;
    let b3: u32 = buffer[offset + 3] as u32;
    b0 + b1 * 0x100 + b2 * 0x1_0000 + b3 * 0x100_0000
}

/// Decodes the row at `offset`.
pub fn decode_row(buffer: &[u8], offset: usize) -> (r: IpAddressRow)
    requires
        offset + IP_ROW_SIZE <= buffer@.len(),
    ensures
        r == row_at(buffer@, offset as int),
{
    let _: usize = buffer.len();
    IpAddressRow {
        address: read_u32(buffer, offset),
        index: read_u32(buffer, offset + 4),
        mask: read_u32(buffer, offset + 8),
        broadcast: read_u32(buffer, offset + 12),
    }
}

/// Walks the address table in `buffer` and decodes its rows. A buffer too
/// short for what its header counts contradicts itself.
pub fn walk_ip_address_table(buffer: &[u8]) -> (r: Result<Vec<IpAddressRow>, NetifacesError>)
    ensures
        table_rows(buffer@) is None ==> (r matches Err(e) && e
            == NetifacesError::InvariantViolation),
        table_rows(buffer@) matches Some(rows) ==> (r matches Ok(found) && found@ == rows),
{
    if buffer.len() < IP_TABLE_HEADER_SIZE {
        return Err(NetifacesError::InvariantViolation);
    }
    let count: usize = read_u32(buffer, 0) as usize;
    let room: usize = (buffer.len() - IP_TABLE_HEADER_SIZE) / IP_ROW_SIZE;
    if count > room {
        return Err(NetifacesError::InvariantViolation);
    }
    let mut rows: Vec<IpAddressRow> = Vec::new();
    let mut i: usize = 0;
    while i < count
        invariant
            i <= count,
            count == u32_at(buffer@, 0),
            buffer@.len() <= usize::MAX,
            IP_TABLE_HEADER_SIZE + count * IP_ROW_SIZE <= buffer@.len(),
            rows@.len() == i,
            forall|j: int|
                0 <= j < i ==> rows@[j] == row_at(
                    buffer@,
                    IP_TABLE_HEADER_SIZE + j * IP_ROW_SIZE,
                ),
        decreases count - i,
    {
        let offset: usize = IP_TABLE_HEADER_SIZE + i * IP_ROW_SIZE;
        rows.push(decode_row(buffer, offset));
        i = i + 1;
    }
    assert(rows@ =~= table_rows(buffer@).unwrap());
    Ok(rows)
}

/// The record that one row gives: address, mask and broadcast address,
/// each turned to host order and written as a dotted quad.
pub open spec fn row_record(row: IpAddressRow) -> RecordView {
    RecordView::empty().insert(AttributeKind::Address, ipv4_text(byte_swapped(row.address))).insert(
        AttributeKind::Netmask,
        ipv4_text(byte_swapped(row.mask)),
    ).insert(AttributeKind::Broadcast, ipv4_text(byte_swapped(row.broadcast)))
}

/// The table after the records of the rows that belong to the interface
/// `index` were appended under IPv4, in the order of the rows.
pub open spec fn table_with_rows(table: TableView, rows: Seq<IpAddressRow>, index: u32) -> TableView
    decreases rows.len(),
{
    if rows.len() == 0 {
        table
    } else {
        let front = table_with_rows(table, rows.drop_last(), index);
        if rows.last().index == index {
            front.insert(
                AF_INET as i32,
                bucket_of(front, AF_INET as i32).push(row_record(rows.last())),
            )
        } else {
            front
        }
    }
}

/// Appends the record of one row under IPv4.
pub fn add_row(row: &IpAddressRow, table: &mut IfAddrs)
    ensures
        table_view(final(table)@) == table_view(old(table)@).insert(
            AF_INET as i32,
            bucket_of(table_view(old(table)@), AF_INET as i32).push(row_record(*row)),
        ),
{
    let ghost start = table_view(table@);
    let ghost bucket = bucket_of(start, AF_INET as i32);
    let address: String = ip_to_string(network_to_host_order(row.address));
    let mask: String = ip_to_string(network_to_host_order(row.mask));
    let broadcast: String = ip_to_string(network_to_host_order(row.broadcast));
    let mut any: bool = false;
    add_to_types_mat(AF_INET, address.as_str(), AttributeKind::Address, table, &mut any);
    let ghost r1 = RecordView::empty().insert(AttributeKind::Address, address@);
    assert(table_view(table@) == start.insert(AF_INET as i32, bucket.push(r1)));
    add_to_types_mat(AF_INET, mask.as_str(), AttributeKind::Netmask, table, &mut any);
    let ghost r2 = r1.insert(AttributeKind::Netmask, mask@);
    proof {
        let b1 = bucket.push(r1);
        assert(b1.update(b1.len() - 1, b1.last().insert(AttributeKind::Netmask, mask@))
            =~= bucket.push(r2));
        assert(table_view(table@) =~= start.insert(AF_INET as i32, bucket.push(r2)));
    }
    add_to_types_mat(AF_INET, broadcast.as_str(), AttributeKind::Broadcast, table, &mut any);
    proof {
        let r3 = r2.insert(AttributeKind::Broadcast, broadcast@);
        let b2 = bucket.push(r2);
        assert(b2.update(b2.len() - 1, b2.last().insert(AttributeKind::Broadcast, broadcast@))
            =~= bucket.push(r3));
        assert(r3 == row_record(*row));
        assert(table_view(table@) =~= start.insert(AF_INET as i32, bucket.push(r3)));
    }
}

/// Appends, under IPv4, the records of the rows whose owner is the
/// interface with the given index.
pub fn ip_table_addresses(rows: &Vec<IpAddressRow>, index: u32, table: &mut IfAddrs)
    ensures
        table_view(final(table)@) == table_with_rows(table_view(old(table)@), rows@, index),
        table_obeys_rules(table_view(old(table)@)) ==> table_obeys_rules(
            table_view(final(table)@),
        ),
{
    proof {
        if table_obeys_rules(table_view(table@)) {
            lemma_rows_obey_rules(table_view(table@), rows@, index);
        }
    }
    let mut i: usize = 0;
    while i < rows.len()
        invariant
            i <= rows.len(),
            table_view(table@) == table_with_rows(
                table_view(old(table)@),
                rows@.take(i as int),
                index,
            ),
        decreases rows.len() - i,
    {
        proof {
            assert(rows@.take(i as int + 1).drop_last() =~= rows@.take(i as int));
        }
        if rows[i].index == index {
            add_row(&rows[i], table);
        }
        i = i + 1;
    }
    assert(rows@.take(i as int) =~= rows@);
}

/// The number of items of `field` in front of its first `zero`; all of
/// them where it holds none.
pub open spec fn terminated_len<T>(field: Seq<T>, zero: T) -> int
    decreases field.len(),
{
    if field.len() == 0 || field[0] == zero {
        0
    } else {
        1 + terminated_len(field.drop_first(), zero)
    }
}

/// The text of a fixed-size field of single-byte characters: the bytes in
/// front of the first zero, each taken as the character with that number.
pub open spec fn ascii_field_text(field: Seq<u8>) -> Seq<char> {
    Seq::new(terminated_len(field, 0u8) as nat, |i: int| field[i] as char)
}

/// The text of a fixed-size field of UTF-16 code units: what the units in
/// front of the first zero decode to.
pub open spec fn wide_field_text(field: Seq<u16>) -> Seq<char> {
    utf16_text(field.take(terminated_len(field, 0u16)))
}

/// The terminated length lies within the field, no item in front of it is
/// the zero, and the item at it, if there is one, is the zero.
pub proof fn lemma_terminated_len<T>(field: Seq<T>, zero: T)
    ensures
        0 <= terminated_len(field, zero) <= field.len(),
        forall|i: int| 0 <= i < terminated_len(field, zero) ==> field[i] != zero,
        terminated_len(field, zero) < field.len() ==> field[terminated_len(field, zero)] == zero,
    decreases field.len(),
{
    if field.len() > 0 && field[0] != zero {
        let rest = field.drop_first();
        lemma_terminated_len(rest, zero);
        assert forall|i: int| 0 <= i < terminated_len(field, zero) implies field[i] != zero by {
            if i > 0 {
                assert(rest[i - 1] == field[i]);
            }
        }
        if terminated_len(field, zero) < field.len() {
            assert(rest[terminated_len(rest, zero)] == field[terminated_len(field, zero)]);
        }
    }
}

/// The position of the first zero of a field is its terminated length.
pub proof fn lemma_terminated_at<T>(field: Seq<T>, zero: T, n: int)
    requires
        0 <= n <= field.len(),
        forall|i: int| 0 <= i < n ==> field[i] != zero,
        n < field.len() ==> field[n] == zero,
    ensures
        terminated_len(field, zero) == n,
{
    lemma_terminated_len(field, zero);
    let m = terminated_len(field, zero);
    if m < n {
        assert(field[m] == zero);
    } else if n < m {
        assert(field[n] != zero);
    }
}

/// Decodes a fixed-size name field of single-byte characters.
pub fn decode_ascii_field(field: &[u8]) -> (r: String)
    ensures
        r@ == ascii_field_text(field@),
{
    let mut out = String::new();
    let mut i: usize = 0;
    while i < field.len() && field[i] != 0
        invariant
            i <= field.len(),
            out@.len() == i,
            forall|j: int| 0 <= j < i ==> field@[j] != 0,
            forall|j: int| 0 <= j < i ==> out@[j] == field@[j] as char,
        decreases field.len() - i,
    {
        out.push(field[i] as char);
        i = i + 1;
    }
    proof {
        lemma_terminated_at(field@, 0u8, i as int);
        assert(out@ =~= ascii_field_text(field@));
    }
    out
}

/// Decodes a fixed-size name field of UTF-16 code units.
pub fn decode_wide_field(field: &[u16]) -> (r: String)
    ensures
        r@ == wide_field_text(field@),
{
    let mut n: usize = 0;
    while n < field.len() && field[n] != 0
        invariant
            n <= field.len(),
            forall|j: int| 0 <= j < n ==> field@[j] != 0,
        decreases field.len() - n,
    {
        n = n + 1;
    }
    proof {
        lemma_terminated_at(field@, 0u16, n as int);
        assert(field@.subrange(0, n as int) =~= field@.take(n as int));
    }
    String::from_utf16_lossy(slice_subrange(field, 0, n))
}

/// One (address, mask) pair of an adapter-info record, both as dotted
/// quads.
#[derive(Clone, Debug, PartialEq, Eq)]
pub struct AddressString {
    pub address: String,
    pub mask: String,
}

/// One record of the adapter-info table.
#[derive(Clone, Debug, PartialEq, Eq)]
pub struct AdapterInfo {
    /// The internal name of the adapter.
    pub name: String,
    /// The description a person would recognise.
    pub description: String,
    /// The numeric index of the interface.
    pub index: u32,
    /// The (address, mask) pairs of the adapter, as its list links them.
    pub addresses: Vec<AddressString>,
    /// How many bytes of `address` are the hardware address.
    pub address_length: u32,
    /// The field that holds the hardware address, of fixed capacity.
    pub address: Vec<u8>,
}

impl AddressString {
    /// Whether the pair stands for "no address assigned".
    pub open spec fn unassigned(self) -> bool {
        self.address@ == "0.0.0.0"@
    }

    /// The record of the pair: the address and its mask.
    pub open spec fn record(self) -> RecordView {
        RecordView::empty().insert(AttributeKind::Address, self.address@).insert(
            AttributeKind::Netmask,
            self.mask@,
        )
    }
}

impl AdapterInfo {
    /// The bytes of the hardware address: the first `address_length` bytes
    /// of the field, and never more than the field holds.
    pub open spec fn hardware_bytes(self) -> Seq<u8> {
        if self.address_length <= self.address@.len() {
            self.address@.take(self.address_length as int)
        } else {
            self.address@
        }
    }

    /// The text of the hardware address; `None` where the adapter has
    /// none.
    pub open spec fn hardware_text(self) -> Option<Seq<char>> {
        if self.hardware_bytes().len() == 0 {
            None
        } else {
            Some(mac_text(self.hardware_bytes()))
        }
    }

    /// The text of the hardware address; `None` where the adapter has
    /// none.
    pub fn physical_address(&self) -> (r: Option<String>)
        ensures
            r is Some <==> self.hardware_text() is Some,
            r matches Some(text) ==> text@ == self.hardware_text().unwrap(),
    {
        let mut bytes: Vec<u8> = Vec::new();
        let mut i: usize = 0;
        while i < self.address.len() && i < self.address_length as usize
            invariant
                i <= self.address@.len(),
                i <= self.address_length,
                bytes@ == self.address@.take(i as int),
            decreases self.address@.len() - i,
        {
            bytes.push(self.address[i]);
            assert(bytes@ =~= self.address@.take(i as int + 1));
            i = i + 1;
        }
        assert(bytes@ =~= self.hardware_bytes());
        if bytes.len() == 0 {
            None
        } else {
            Some(mac_to_string(&bytes))
        }
    }
}

/// The table after the records of the assigned pairs were appended under
/// IPv4, in the order of the pairs.
pub open spec fn table_with_pairs(table: TableView, pairs: Seq<AddressString>) -> TableView
    decreases pairs.len(),
{
    if pairs.len() == 0 {
        table
    } else {
        let front = table_with_pairs(table, pairs.drop_last());
        if pairs.last().unassigned() {
            front
        } else {
            front.insert(
                AF_INET as i32,
                bucket_of(front, AF_INET as i32).push(pairs.last().record()),
            )
        }
    }
}

/// The table of one adapter-info record: a record for each assigned
/// (address, mask) pair under IPv4, then the hardware address, where there
/// is one, under the link-layer family.
pub open spec fn adapter_info_table(info: AdapterInfo) -> TableView {
    let table = table_with_pairs(TableView::empty(), info.addresses@);
    match info.hardware_text() {
        Some(text) => table_with_attribute(
            table,
            AF_PACKET as i32,
            AttributeKind::Address,
            text,
            false,
        ),
        None => table,
    }
}

/// The addresses of one adapter-info record. Pairs that stand for "no
/// address assigned" are dropped.
pub fn adapter_info_addresses(info: &AdapterInfo) -> (r: IfAddrs)
    ensures
        table_view(r@) == adapter_info_table(*info),
        table_obeys_rules(table_view(r@)),
{
    proof {
        lemma_adapter_info_table_obeys_rules(*info);
    }
    let mut table: IfAddrs = std::collections::HashMap::new();
    assert(table_view(table@) =~= TableView::empty());
    let sentinel = String::from_str("0.0.0.0");
    let mut i: usize = 0;
    while i < info.addresses.len()
        invariant
            i <= info.addresses.len(),
            sentinel@ == "0.0.0.0"@,
            table_view(table@) == table_with_pairs(
                TableView::empty(),
                info.addresses@.take(i as int),
            ),
        decreases info.addresses.len() - i,
    {
        proof {
            assert(info.addresses@.take(i as int + 1).drop_last() =~= info.addresses@.take(
                i as int,
            ));
        }
        let pair: &AddressString = &info.addresses[i];
        if pair.address != sentinel {
            let ghost start = table_view(table@);
            let ghost bucket = bucket_of(start, AF_INET as i32);
            let mut any: bool = false;
            let address: &str = pair.address.as_str();
            let mask: &str = pair.mask.as_str();
            add_to_types_mat(AF_INET, address, AttributeKind::Address, &mut table, &mut any);
            add_to_types_mat(AF_INET, mask, AttributeKind::Netmask, &mut table, &mut any);
            proof {
                let r1 = RecordView::empty().insert(AttributeKind::Address, pair.address@);
                let b1 = bucket.push(r1);
                assert(b1.update(b1.len() - 1, b1.last().insert(AttributeKind::Netmask, pair.mask@))
                    =~= bucket.push(pair.record()));
                assert(table_view(table@) =~= start.insert(
                    AF_INET as i32,
                    bucket.push(pair.record()),
                ));
            }
        }
        i = i + 1;
    }
    assert(info.addresses@.take(i as int) =~= info.addresses@);
    match info.physical_address() {
        Some(text) => {
            let mut any: bool = false;
            let mac: &str = text.as_str();
            add_to_types_mat(AF_PACKET, mac, AttributeKind::Address, &mut table, &mut any);
        },
        None => {},
    }
    table
}

/// Appending the rows of an interface keeps a table within the rules:
/// each of their records holds its address beside the mask.
pub proof fn lemma_rows_obey_rules(table: TableView, rows: Seq<IpAddressRow>, index: u32)
    requires
        table_obeys_rules(table),
    ensures
        table_obeys_rules(table_with_rows(table, rows, index)),
    decreases rows.len(),
{
    if rows.len() > 0 {
        lemma_rows_obey_rules(table, rows.drop_last(), index);
        if rows.last().index == index {
            let record = row_record(rows.last());
            assert(record.contains_key(AttributeKind::Address));
            lemma_appended_record_obeys_rules(
                table_with_rows(table, rows.drop_last(), index),
                AF_INET as i32,
                record,
            );
        }
    }
}

/// The table of an adapter-info record obeys the rules of this library's
/// tables: the link-layer record holds the address alone, and every mask
/// stands beside its address.
pub proof fn lemma_adapter_info_table_obeys_rules(info: AdapterInfo)
    ensures
        table_obeys_rules(adapter_info_table(info)),
{
    lemma_pairs_obey_rules(info.addresses@);
    if info.hardware_text() is Some {
        let record = RecordView::empty().insert(
            AttributeKind::Address,
            info.hardware_text().unwrap(),
        );
        assert(record.contains_key(AttributeKind::Address));
        lemma_appended_record_obeys_rules(
            table_with_pairs(TableView::empty(), info.addresses@),
            AF_PACKET as i32,
            record,
        );
    }
}

proof fn lemma_pairs_obey_rules(pairs: Seq<AddressString>)
    ensures
        table_obeys_rules(table_with_pairs(TableView::empty(), pairs)),
    decreases pairs.len(),
{
    if pairs.len() > 0 {
        lemma_pairs_obey_rules(pairs.drop_last());
        if !pairs.last().unassigned() {
            let record = pairs.last().record();
            assert(record.contains_key(AttributeKind::Address));
            lemma_appended_record_obeys_rules(
                table_with_pairs(TableView::empty(), pairs.drop_last()),
                AF_INET as i32,
                record,
            );
        }
    }
}

} // verus!

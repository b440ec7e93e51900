//! The Windows enumerator: interface names, addresses and status out of a
//! snapshot of the adapter list.

use vstd::prelude::*;
use vstd::string::{StrSliceExecFns, StringExecFns};
use std::collections::HashMap;
use crate::classifier::{
    add_to_types_mat, lemma_address_record_obeys_rules, table_with_attribute,
};
use crate::common::{InterfaceDisplay, InterfaceIdentity, NetifacesError};
use crate::listing::{distinct, distinct_names, index_view, names_view};
use crate::text::lowercase_text;
use crate::types::{
    table_obeys_rules, table_view, AttributeKind, IfAddrs, IfacesByIndex, TableView, AF_INET,
    AF_INET6, AF_PACKET,
};

verus! {

broadcast use vstd::std_specs::hash::group_hash_axioms;

/// The operational status that an adapter reports.
#[derive(Clone, Copy, Debug, PartialEq, Eq, Structural)]
pub enum OperStatus {
    Up,
    Down,
    Testing,
    Unknown,
    Dormant,
    NotPresent,
    LowerLayerDown,
}

/// One unicast address of an adapter, by its family, with the text of the
/// address.
#[derive(Clone, Debug, PartialEq, Eq)]
pub enum UnicastAddress {
    V4(String),
    V6(String),
}

/// One adapter of a snapshot of the adapter list.
#[derive(Clone, Debug, PartialEq, Eq)]
pub struct Adapter {
    /// Its description, its internal name, which looks like a UUID, and its
    /// index.
    pub identity: InterfaceIdentity,
    /// The unicast addresses bound to the adapter, as found.
    pub unicast_addresses: Vec<UnicastAddress>,
    /// The hardware address as groups of two upper-case hexadecimal digits
    /// joined by hyphens, where the adapter has one.
    pub physical_address: Option<String>,
    /// Whether the adapter is able to pass traffic.
    pub operational_status: OperStatus,
}

impl UnicastAddress {
    /// The family under which the address is filed.
    pub open spec fn family(self) -> u8 {
        match self {
            UnicastAddress::V4(_) => AF_INET,
            UnicastAddress::V6(_) => AF_INET6,
        }
    }

    /// The text of the address.
    pub open spec fn text(self) -> Seq<char> {
        match self {
            UnicastAddress::V4(text) => text@,
            UnicastAddress::V6(text) => text@,
        }
    }
}

/// The path under which the operating system knows the device of the
/// adapter with the internal name `adapter_name`; the index of an adapter
/// is looked up by this path.
pub fn device_path(adapter_name: &str) -> (r: String)
    ensures
        r@ == "\\DEVICE\\TCPIP_"@ + adapter_name@,
{
    let mut path = String::from_str("\\DEVICE\\TCPIP_");
    path.append(adapter_name);
    path
}

/// How many of the adapters answer to `name`.
pub open spec fn match_count(adapters: Seq<Adapter>, name: Seq<char>) -> nat
    decreases adapters.len(),
{
    if adapters.len() == 0 {
        0
    } else {
        match_count(adapters.drop_last(), name) + if adapters.last().identity.answers_to(name) {
            1nat
        } else {
            0nat
        }
    }
}

/// The position of the first adapter that answers to `name`; the number of
/// adapters where none does.
pub open spec fn first_match(adapters: Seq<Adapter>, name: Seq<char>) -> int
    decreases adapters.len(),
{
    if adapters.len() == 0 {
        0
    } else if first_match(adapters.drop_last(), name) < adapters.len() - 1 {
        first_match(adapters.drop_last(), name)
    } else if adapters.last().identity.answers_to(name) {
        adapters.len() - 1
    } else {
        adapters.len() as int
    }
}

/// The first match lies in the list exactly where some adapter answers to
/// the name, and is then an adapter that does.
pub proof fn lemma_first_match(adapters: Seq<Adapter>, name: Seq<char>)
    ensures
        0 <= first_match(adapters, name) <= adapters.len(),
        match_count(adapters, name) == 0 <==> first_match(adapters, name) == adapters.len(),
        first_match(adapters, name) < adapters.len() ==> adapters[first_match(
            adapters,
            name,
        )].identity.answers_to(name),
        forall|i: int|
            0 <= i < first_match(adapters, name) ==> !(
            #[trigger] adapters[i]).identity.answers_to(name),
    decreases adapters.len(),
{
    if adapters.len() > 0 {
        lemma_first_match(adapters.drop_last(), name);
        assert forall|i: int| 0 <= i < first_match(adapters, name) implies !(
        #[trigger] adapters[i]).identity.answers_to(name) by {
            if i < adapters.len() - 1 {
                assert(adapters.drop_last()[i] == adapters[i]);
            }
        }
        if first_match(adapters.drop_last(), name) < adapters.len() - 1 {
            assert(adapters.drop_last()[first_match(adapters.drop_last(), name)]
                == adapters[first_match(adapters, name)]);
        }
    }
}

/// Where exactly one adapter answers to a name, it is the first match: no
/// other adapter answers to it.
pub proof fn lemma_unique_match(adapters: Seq<Adapter>, name: Seq<char>, i: int)
    requires
        match_count(adapters, name) == 1,
        0 <= i < adapters.len(),
        adapters[i].identity.answers_to(name),
    ensures
        i == first_match(adapters, name),
    decreases adapters.len(),
{
    let front = adapters.drop_last();
    lemma_first_match(front, name);
    if adapters.last().identity.answers_to(name) {
        if i < adapters.len() - 1 {
            assert(front[i] == adapters[i]);
        }
    } else {
        assert(front[i] == adapters[i]);
        lemma_unique_match(front, name, i);
    }
}

/// Finds the adapter that a caller means by `if_name`, which may be its
/// description or its internal name. No such adapter is `NotFound`; more
/// than one contradicts the uniqueness of names and is an
/// `InvariantViolation`.
pub fn find_adapter<'a>(adapters: &'a Vec<Adapter>, if_name: &str) -> (r: Result<
    &'a Adapter,
    NetifacesError,
>)
    ensures
        match_count(adapters@, if_name@) == 0 ==> (r matches Err(e) && e
            == NetifacesError::NotFound),
        match_count(adapters@, if_name@) > 1 ==> (r matches Err(e) && e
            == NetifacesError::InvariantViolation),
        match_count(adapters@, if_name@) == 1 ==> (r matches Ok(found) && *found
            == adapters@[first_match(adapters@, if_name@)]),
{
    let name = String::from_str(if_name);
    let mut count: usize = 0;
    let mut first: usize = 0;
    let mut i: usize = 0;
    while i < adapters.len()
        invariant
            i <= adapters.len(),
            name@ == if_name@,
            count == match_count(adapters@.take(i as int), if_name@),
            count <= i,
            first as int == first_match(adapters@.take(i as int), if_name@),
        decreases adapters.len() - i,
    {
        proof {
            assert(adapters@.take(i as int + 1).drop_last() =~= adapters@.take(i as int));
            lemma_first_match(adapters@.take(i as int), if_name@);
        }
        if adapters[i].identity.description == name || adapters[i].identity.name == name {
            if count == 0 {
                first = i;
            }
            count = count + 1;
        } else if count == 0 {
            first = i + 1;
        }
        i = i + 1;
    }
    proof {
        assert(adapters@.take(i as int) =~= adapters@);
        lemma_first_match(adapters@, if_name@);
    }
    if count > 1 {
        Err(NetifacesError::InvariantViolation)
    } else if count == 1 {
        Ok(&adapters[first])
    } else {
        Err(NetifacesError::NotFound)
    }
}

/// The table after one record, holding the address alone, was appended for
/// each of the unicast addresses, in their order.
pub open spec fn table_with_addresses(table: TableView, addresses: Seq<UnicastAddress>) -> TableView
    decreases addresses.len(),
{
    if addresses.len() == 0 {
        table
    } else {
        table_with_attribute(
            table_with_addresses(table, addresses.drop_last()),
            addresses.last().family() as i32,
            AttributeKind::Address,
            addresses.last().text(),
            false,
        )
    }
}

/// The text with every hyphen turned into a colon.
pub open spec fn hyphens_to_colons(text: Seq<char>) -> Seq<char> {
    Seq::new(
        text.len(),
        |i: int|
            if text[i] == '-' {
                ':'
            } else {
                text[i]
            },
    )
}

/// The text under which a hardware address, given with hyphens, is
/// recorded: colons for the hyphens, and lower case.
pub open spec fn recorded_mac(text: Seq<char>) -> Seq<char> {
    lowercase_text(hyphens_to_colons(text))
}

/// The table after the record of the hardware address, where there is one,
/// was appended under the link-layer family.
pub open spec fn table_with_mac(table: TableView, physical_address: Option<String>) -> TableView {
    match physical_address {
        Some(text) => table_with_attribute(
            table,
            AF_PACKET as i32,
            AttributeKind::Address,
            recorded_mac(text@),
            false,
        ),
        None => table,
    }
}

/// The table of one adapter: a record for each unicast address, then one
/// for the hardware address.
pub open spec fn adapter_table(adapter: Adapter) -> TableView {
    table_with_mac(
        table_with_addresses(TableView::empty(), adapter.unicast_addresses@),
        adapter.physical_address,
    )
}

/// Appends a record for each unicast address of the adapter, under IPv4 or
/// IPv6 as the address says. Neither mask nor broadcast address is known
/// for them.
pub fn ifaddresses_ip(adapter: &Adapter, if_addrs: &mut IfAddrs) -> (r: Result<(), NetifacesError>)
    ensures
        r is Ok,
        table_view(final(if_addrs)@) == table_with_addresses(
            table_view(old(if_addrs)@),
            adapter.unicast_addresses@,
        ),
{
    let mut i: usize = 0;
    while i < adapter.unicast_addresses.len()
        invariant
            i <= adapter.unicast_addresses.len(),
            table_view(if_addrs@) == table_with_addresses(
                table_view(old(if_addrs)@),
                adapter.unicast_addresses@.take(i as int),
            ),
        decreases adapter.unicast_addresses.len() - i,
    {
        proof {
            assert(adapter.unicast_addresses@.take(i as int + 1).drop_last()
                =~= adapter.unicast_addresses@.take(i as int));
        }
        let mut any: bool = false;
        match &adapter.unicast_addresses[i] {
            UnicastAddress::V4(text) => {
                add_to_types_mat(
                    AF_INET,
                    text.as_str(),
                    AttributeKind::Address,
                    if_addrs,
                    &mut any,
                );
            },
            UnicastAddress::V6(text) => {
                add_to_types_mat(
                    AF_INET6,
                    text.as_str(),
                    AttributeKind::Address,
                    if_addrs,
                    &mut any,
                );
            },
        }
        i = i + 1;
    }
    assert(adapter.unicast_addresses@.take(i as int) =~= adapter.unicast_addresses@);
    Ok(())
}

/// Turns every hyphen of the text into a colon.
pub fn replace_hyphens(text: &str) -> (r: String)
    ensures
        r@ == hyphens_to_colons(text@),
{
    let mut out = String::new();
    let n: usize = text.unicode_len();
    let mut i: usize = 0;
    while i < n
        invariant
            n == text@.len(),
            i <= n,
            out@.len() == i,
            forall|j: int| 0 <= j < i ==> out@[j] == hyphens_to_colons(text@)[j],
        decreases n - i,
    {
        let c: char = text.get_char(i);
        if c == '-' {
            out.push(':');
        } else {
            out.push(c);
        }
        i = i + 1;
    }
    assert(out@ =~= hyphens_to_colons(text@));
    out
}

/// Appends the record of the adapter's hardware address, where it has one,
/// under the link-layer family: the address alone, with colons and in
/// lower case.
pub fn ifaddresses_mac(adapter: &Adapter, if_addrs: &mut IfAddrs) -> (r: Result<
    (),
    NetifacesError,
>)
    ensures
        r is Ok,
        table_view(final(if_addrs)@) == table_with_mac(
            table_view(old(if_addrs)@),
            adapter.physical_address,
        ),
{
    match &adapter.physical_address {
        Some(mac_str_hyphens) => {
            let with_colons: String = replace_hyphens(mac_str_hyphens.as_str());
            let mac_str: String = with_colons.as_str().to_lowercase();
            let mut any: bool = false;
            add_to_types_mat(
                AF_PACKET,
                mac_str.as_str(),
                AttributeKind::Address,
                if_addrs,
                &mut any,
            );
        },
        None => {},
    }
    Ok(())
}

/// The addresses of the adapter that `if_name` means, out of one snapshot
/// of the adapter list.
pub fn windows_ifaddresses(adapters: &Vec<Adapter>, if_name: &str) -> (r: Result<
    IfAddrs,
    NetifacesError,
>)
    ensures
        match_count(adapters@, if_name@) == 0 ==> (r matches Err(e) && e
            == NetifacesError::NotFound),
        match_count(adapters@, if_name@) > 1 ==> (r matches Err(e) && e
            == NetifacesError::InvariantViolation),
        match_count(adapters@, if_name@) == 1 ==> (r matches Ok(table) && table_view(table@)
            == adapter_table(adapters@[first_match(adapters@, if_name@)])),
        r matches Ok(table) ==> table_obeys_rules(table_view(table@)),
{
    let mut if_addrs: IfAddrs = HashMap::new();
    assert(table_view(if_addrs@) =~= TableView::empty());
    let interface = match find_adapter(adapters, if_name) {
        Ok(found) => found,
        Err(e) => {
            return Err(e);
        },
    };
    let _ = ifaddresses_ip(interface, &mut if_addrs);
    let _ = ifaddresses_mac(interface, &mut if_addrs);
    proof {
        lemma_adapter_table_obeys_rules(*interface);
    }
    Ok(if_addrs)
}

/// The identifiers of the adapters in the given display mode, adapter by
/// adapter.
pub open spec fn identifiers(adapters: Seq<Adapter>, display: InterfaceDisplay) -> Seq<Seq<char>> {
    Seq::new(adapters.len(), |i: int| adapters[i].identity.identifier_text(display))
}

/// The identifiers of the adapters of one snapshot in the given display
/// mode, each once, in the order of the snapshot.
pub fn windows_interfaces(adapters: &Vec<Adapter>, display: InterfaceDisplay) -> (r: Vec<String>)
    ensures
        names_view(r@) == distinct_names(identifiers(adapters@, display)),
{
    let mut ifaces: Vec<String> = Vec::new();
    let mut i: usize = 0;
    while i < adapters.len()
        invariant
            i <= adapters.len(),
            ifaces@.len() == i,
            forall|j: int|
                0 <= j < i ==> (#[trigger] ifaces@[j])@ == adapters@[j].identity.identifier_text(
                    display,
                ),
        decreases adapters.len() - i,
    {
        ifaces.push(adapters[i].identity.identifier(display));
        i = i + 1;
    }
    assert(names_view(ifaces@) =~= identifiers(adapters@, display));
    distinct(&ifaces)
}

/// The table that the adapters give: each index with the identifier of the
/// last adapter that carries it.
pub open spec fn adapter_index_table(adapters: Seq<Adapter>, display: InterfaceDisplay) -> Map<
    usize,
    Seq<char>,
>
    decreases adapters.len(),
{
    if adapters.len() == 0 {
        Map::empty()
    } else {
        adapter_index_table(adapters.drop_last(), display).insert(
            adapters.last().identity.index as usize,
            adapters.last().identity.identifier_text(display),
        )
    }
}

/// Files the identifiers of all adapters of one snapshot by their index.
pub fn windows_interfaces_by_index(adapters: &Vec<Adapter>, display: InterfaceDisplay) -> (r:
    IfacesByIndex)
    ensures
        index_view(r@) == adapter_index_table(adapters@, display),
{
    let mut ifaces_by_index: IfacesByIndex = HashMap::new();
    let mut i: usize = 0;
    assert(index_view(ifaces_by_index@) =~= adapter_index_table(adapters@.take(0), display));
    while i < adapters.len()
        invariant
            i <= adapters.len(),
            index_view(ifaces_by_index@) == adapter_index_table(
                adapters@.take(i as int),
                display,
            ),
        decreases adapters.len() - i,
    {
        let ghost before = index_view(ifaces_by_index@);
        let value: String = adapters[i].identity.identifier(display);
        let index: usize = adapters[i].identity.index as usize;
        ifaces_by_index.insert(index, value);
        proof {
            assert(adapters@.take(i as int + 1).drop_last() =~= adapters@.take(i as int));
            assert(index_view(ifaces_by_index@) =~= before.insert(
                index,
                adapters@[i as int].identity.identifier_text(display),
            ));
        }
        i = i + 1;
    }
    assert(adapters@.take(i as int) =~= adapters@);
    ifaces_by_index
}

/// Whether a status counts as up: only the status `Up` does.
pub open spec fn status_is_up(status: OperStatus) -> bool {
    status == OperStatus::Up
}

/// Whether the adapter that `if_name` means is up, out of one snapshot of
/// the adapter list.
pub fn windows_interface_is_up(adapters: &Vec<Adapter>, if_name: &str) -> (r: Result<
    bool,
    NetifacesError,
>)
    ensures
        match_count(adapters@, if_name@) == 0 ==> r == Err::<bool, NetifacesError>(
            NetifacesError::NotFound,
        ),
        match_count(adapters@, if_name@) > 1 ==> r == Err::<bool, NetifacesError>(
            NetifacesError::InvariantViolation,
        ),
        match_count(adapters@, if_name@) == 1 ==> r == Ok::<bool, NetifacesError>(
            status_is_up(adapters@[first_match(adapters@, if_name@)].operational_status),
        ),
{
    let interface = match find_adapter(adapters, if_name) {
        Ok(found) => found,
        Err(e) => {
            return Err(e);
        },
    };
    match interface.operational_status {
        OperStatus::Up => Ok(true),
        _ => Ok(false),
    }
}

/// The table of an adapter obeys the rules of this library's tables: each
/// of its records holds the address alone, so the link-layer record holds
/// nothing else and no mask stands without its address.
pub proof fn lemma_adapter_table_obeys_rules(adapter: Adapter)
    ensures
        table_obeys_rules(adapter_table(adapter)),
{
    lemma_addresses_obey_rules(adapter.unicast_addresses@);
    let table = table_with_addresses(TableView::empty(), adapter.unicast_addresses@);
    if adapter.physical_address is Some {
        lemma_address_record_obeys_rules(
            table,
            AF_PACKET as i32,
            recorded_mac(adapter.physical_address.unwrap()@),
        );
    }
}

proof fn lemma_addresses_obey_rules(addresses: Seq<UnicastAddress>)
    ensures
        table_obeys_rules(table_with_addresses(TableView::empty(), addresses)),
    decreases addresses.len(),
{
    if addresses.len() > 0 {
        lemma_addresses_obey_rules(addresses.drop_last());
        lemma_address_record_obeys_rules(
            table_with_addresses(TableView::empty(), addresses.drop_last()),
            addresses.last().family() as i32,
            addresses.last().text(),
        );
    }
}

} // verus!

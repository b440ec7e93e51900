use netifaces::classifier::RawAddress;
use netifaces::common::{InterfaceDisplay, NetifacesError, SystemCall};
use netifaces::linux::{
    add_entry, address_snapshot, entry_of, ifaddresses_of, interface_name_field,
    interface_names, interfaces_by_index_of, posix_ifaddresses, posix_interface_is_up,
    posix_interfaces, posix_interfaces_by_index, read_interface_flags, snapshot_from,
    FlagsOutcome, InterfaceEntry, IFF_RUNNING, IFNAMSIZ,
};
use netifaces::listing::distinct;
use netifaces::types::{AttributeKind, IfAddrs};
use nix::errno::Errno;
use std::collections::HashSet;

fn raw() -> RawAddress {
    RawAddress { link: None, netlink: None, vsock: None, inet: None, alg: None, inet6: None }
}

fn inet(s: &str) -> Option<RawAddress> {
    Some(RawAddress { inet: Some(s.to_string()), ..raw() })
}

fn inet6(s: &str) -> Option<RawAddress> {
    Some(RawAddress { inet6: Some(s.to_string()), ..raw() })
}

fn link(s: &str) -> Option<RawAddress> {
    Some(RawAddress { link: Some(s.to_string()), ..raw() })
}

fn entry(
    name: &str,
    address: Option<RawAddress>,
    netmask: Option<RawAddress>,
    broadcast: Option<RawAddress>,
    destination: Option<RawAddress>,
) -> InterfaceEntry {
    InterfaceEntry { interface_name: name.to_string(), address, netmask, broadcast, destination }
}

fn some(s: &str) -> Option<String> {
    Some(s.to_string())
}

fn snapshot() -> Vec<InterfaceEntry> {
    vec![
        entry("lo", link("00:00:00:00:00:00"), None, None, None),
        entry("eth0", link("02:42:ac:11:00:02"), None, link("ff:ff:ff:ff:ff:ff"), None),
        entry("lo", inet("127.0.0.1"), inet("255.0.0.0"), None, None),
        entry("eth0", inet("172.17.0.2"), inet("255.255.0.0"), inet("172.17.255.255"), None),
        entry("lo", inet6("::1"), inet6("ffff:ffff:ffff:ffff:ffff:ffff:ffff:ffff"), None, None),
        entry("eth0", inet6("fe80::42:acff:fe11:2"), inet6("ffff:ffff:ffff:ffff::"), None, None),
        entry("eth0", inet("10.1.2.3"), inet("255.255.255.0"), None, None),
        entry("tun0", inet("10.8.0.2"), inet("255.255.255.255"), None, inet("10.8.0.1")),
    ]
}

#[test]
fn loopback_gives_address_and_mask_in_one_record() {
    let entries = vec![entry("lo", inet("127.0.0.1"), inet("255.0.0.0"), None, None)];
    let table = ifaddresses_of(&entries, "lo").unwrap();
    assert_eq!(table.len(), 1);
    let records = table.get(&2).unwrap();
    assert_eq!(records.len(), 1);
    assert_eq!(records[0].get(AttributeKind::Address), Some(&"127.0.0.1".to_string()));
    assert_eq!(records[0].get(AttributeKind::Netmask), Some(&"255.0.0.0".to_string()));
    assert!(!records[0].contains(AttributeKind::Broadcast));
    assert!(!records[0].contains(AttributeKind::Peer));
}

#[test]
fn unknown_name_is_not_found() {
    assert_eq!(ifaddresses_of(&snapshot(), "__nonexistent__"), Err(NetifacesError::NotFound));
    assert_eq!(ifaddresses_of(&Vec::new(), "lo"), Err(NetifacesError::NotFound));
}

#[test]
fn names_are_matched_exactly() {
    assert_eq!(ifaddresses_of(&snapshot(), "LO"), Err(NetifacesError::NotFound));
    assert_eq!(ifaddresses_of(&snapshot(), "eth"), Err(NetifacesError::NotFound));
    assert_eq!(ifaddresses_of(&snapshot(), "eth0 "), Err(NetifacesError::NotFound));
    assert!(ifaddresses_of(&snapshot(), "eth0").is_ok());
}

#[test]
fn records_keep_the_order_of_the_list() {
    let table = ifaddresses_of(&snapshot(), "eth0").unwrap();
    assert_eq!(table.len(), 3);
    let v4 = table.get(&2).unwrap();
    assert_eq!(v4.len(), 2);
    assert_eq!(v4[0].addr, some("172.17.0.2"));
    assert_eq!(v4[0].mask, some("255.255.0.0"));
    assert_eq!(v4[0].broadcast, some("172.17.255.255"));
    assert_eq!(v4[0].peer, None);
    assert_eq!(v4[1].addr, some("10.1.2.3"));
    assert_eq!(v4[1].mask, some("255.255.255.0"));
    assert_eq!(v4[1].broadcast, None);
    let v6 = table.get(&10).unwrap();
    assert_eq!(v6.len(), 1);
    assert_eq!(v6[0].addr, some("fe80::42:acff:fe11:2"));
    assert_eq!(v6[0].mask, some("ffff:ffff:ffff:ffff::"));
}

#[test]
fn peer_of_a_point_to_point_link_is_recorded() {
    let table = ifaddresses_of(&snapshot(), "tun0").unwrap();
    let v4 = table.get(&2).unwrap();
    assert_eq!(v4.len(), 1);
    assert_eq!(v4[0].addr, some("10.8.0.2"));
    assert_eq!(v4[0].peer, some("10.8.0.1"));
    assert_eq!(v4[0].broadcast, None);
}

#[test]
fn link_record_holds_the_address_alone() {
    let table = ifaddresses_of(&snapshot(), "eth0").unwrap();
    let links = table.get(&17).unwrap();
    assert_eq!(links.len(), 1);
    assert_eq!(links[0].addr, some("02:42:ac:11:00:02"));
    assert_eq!(links[0].mask, None);
    assert_eq!(links[0].broadcast, None);
    assert_eq!(links[0].peer, None);
}

#[test]
fn mask_without_address_is_not_recorded() {
    let entries = vec![
        entry("eth1", None, inet("255.255.255.0"), None, None),
        entry("eth1", None, inet("255.255.0.0"), inet("10.0.255.255"), None),
    ];
    let table = ifaddresses_of(&entries, "eth1").unwrap();
    let v4 = table.get(&2).unwrap();
    assert_eq!(v4.len(), 1);
    assert_eq!(v4[0].addr, None);
    assert_eq!(v4[0].mask, None);
    assert_eq!(v4[0].broadcast, some("10.0.255.255"));
}

#[test]
fn interface_without_usable_address_gives_an_empty_table() {
    let entries = vec![
        entry("dummy0", None, None, None, None),
        entry("dummy0", Some(raw()), Some(raw()), None, None),
    ];
    assert_eq!(ifaddresses_of(&entries, "dummy0"), Ok(IfAddrs::new()));
}

#[test]
fn attributes_of_another_family_stay_out_of_the_record() {
    let entries = vec![entry(
        "eth2",
        inet("192.0.2.7"),
        inet6("ffff::"),
        inet("192.0.2.255"),
        inet6("::2"),
    )];
    let table = ifaddresses_of(&entries, "eth2").unwrap();
    assert_eq!(table.len(), 1);
    let v4 = table.get(&2).unwrap();
    assert_eq!(v4.len(), 1);
    assert_eq!(v4[0].addr, some("192.0.2.7"));
    assert_eq!(v4[0].mask, None);
    assert_eq!(v4[0].broadcast, some("192.0.2.255"));
    assert_eq!(v4[0].peer, None);
}

#[test]
fn add_entry_appends_to_an_existing_table() {
    let mut table = ifaddresses_of(&snapshot(), "lo").unwrap();
    add_entry(&entry("lo", inet("127.0.0.2"), inet("255.0.0.0"), None, None), &mut table);
    add_entry(&entry("lo", None, None, None, None), &mut table);
    let v4 = table.get(&2).unwrap();
    assert_eq!(v4.len(), 2);
    assert_eq!(v4[0].addr, some("127.0.0.1"));
    assert_eq!(v4[1].addr, some("127.0.0.2"));
    assert_eq!(table.len(), 3);
}

#[test]
fn same_snapshot_gives_the_same_table() {
    let entries = snapshot();
    for name in ["lo", "eth0", "tun0"] {
        let first = ifaddresses_of(&entries, name).unwrap();
        let second = ifaddresses_of(&entries, name).unwrap();
        assert_eq!(first, second);
    }
}

#[test]
fn every_table_obeys_the_record_rules() {
    let mut entries = snapshot();
    let broadcast = link("ff:ff:ff:ff:ff:ff");
    entries.push(entry("eth0", None, inet("255.0.0.0"), broadcast, inet("1.1.1.1")));
    let peer = link("bb:bb:bb:bb:bb:bb");
    entries.push(entry("eth0", link("aa:aa:aa:aa:aa:aa"), link("ff:ff:ff:00:00:00"), None, peer));
    for name in ["lo", "eth0", "tun0"] {
        let table = ifaddresses_of(&entries, name).unwrap();
        for (family, records) in &table {
            assert!(!records.is_empty());
            for record in records {
                if *family == 17 {
                    assert!(record.addr.is_some());
                    assert!(record.mask.is_none() && record.broadcast.is_none());
                    assert!(record.peer.is_none());
                }
                if record.mask.is_some() {
                    assert!(record.addr.is_some());
                }
            }
        }
    }
}

#[test]
fn interface_names_are_distinct_and_in_first_seen_order() {
    assert_eq!(interface_names(&snapshot()), vec!["lo", "eth0", "tun0"]);
    assert_eq!(interface_names(&Vec::new()), Vec::<String>::new());
}

#[test]
fn interface_names_do_not_depend_on_the_order_as_a_set() {
    let forward = snapshot();
    let mut backward = snapshot();
    backward.reverse();
    backward.push(entry("lo", None, None, None, None));
    let a: HashSet<String> = interface_names(&forward).into_iter().collect();
    let b: HashSet<String> = interface_names(&backward).into_iter().collect();
    assert_eq!(a, b);
    assert_eq!(interface_names(&backward), vec!["tun0", "eth0", "lo"]);
}

#[test]
fn distinct_keeps_the_first_of_each_name() {
    let names: Vec<String> = ["b", "a", "b", "c", "a", "b"].iter().map(|s| s.to_string()).collect();
    assert_eq!(distinct(&names), vec!["b", "a", "c"]);
    assert_eq!(distinct(&Vec::new()), Vec::<String>::new());
    assert_eq!(distinct(&distinct(&names)), distinct(&names));
}

#[test]
fn interfaces_by_index_files_each_name() {
    let pairs = vec![(1u32, "lo".to_string()), (2, "eth0".to_string()), (7, "tun0".to_string())];
    let table = interfaces_by_index_of(&pairs);
    assert_eq!(table.len(), 3);
    assert_eq!(table.get(&1), Some(&"lo".to_string()));
    assert_eq!(table.get(&2), Some(&"eth0".to_string()));
    assert_eq!(table.get(&7), Some(&"tun0".to_string()));
    assert_eq!(table.get(&3), None);
}

#[test]
fn interfaces_by_index_keeps_the_last_name_of_an_index() {
    let pairs = vec![(4u32, "old".to_string()), (4, "new".to_string())];
    let table = interfaces_by_index_of(&pairs);
    assert_eq!(table.len(), 1);
    assert_eq!(table.get(&4), Some(&"new".to_string()));
}

#[test]
fn name_field_holds_the_name_and_zeros() {
    let field = interface_name_field("eth0").unwrap();
    assert_eq!(field.len(), 16);
    assert_eq!(&field[..5], &[b'e', b't', b'h', b'0', 0]);
    assert!(field[4..].iter().all(|b| *b == 0));
    assert_eq!(interface_name_field("").unwrap(), vec![0u8; 16]);
}

#[test]
fn name_field_needs_room_for_the_terminator() {
    assert_eq!(IFNAMSIZ, 16);
    let fits = "a".repeat(15);
    let field = interface_name_field(&fits).unwrap();
    assert_eq!(&field[..15], fits.as_bytes());
    assert_eq!(field[15], 0);
    assert_eq!(interface_name_field(&"a".repeat(16)), Err(NetifacesError::NotFound));
    assert_eq!(interface_name_field(&"a".repeat(40)), Err(NetifacesError::NotFound));
}

#[test]
fn flags_follow_the_outcome_of_the_query() {
    assert_eq!(read_interface_flags("eth0", FlagsOutcome::Flags { flags: 0x1043 }), Ok(0x1043));
    assert_eq!(
        read_interface_flags("eth0", FlagsOutcome::QueryFailed { code: 19 }),
        Err(NetifacesError::SystemError { call: SystemCall::InterfaceFlags, code: 19 })
    );
    assert_eq!(
        read_interface_flags("eth0", FlagsOutcome::SocketFailed { code: 24 }),
        Err(NetifacesError::SystemError { call: SystemCall::Socket, code: 24 })
    );
}

#[test]
fn too_long_a_name_is_not_found_whatever_the_outcome() {
    let name = "a-name-that-is-too-long";
    assert_eq!(
        read_interface_flags(name, FlagsOutcome::Flags { flags: 0x43 }),
        Err(NetifacesError::NotFound)
    );
    assert_eq!(
        posix_interface_is_up(name, FlagsOutcome::QueryFailed { code: 19 }),
        Err(NetifacesError::NotFound)
    );
}

#[test]
fn interface_is_up_when_it_is_running() {
    assert_eq!(IFF_RUNNING, 0x40);
    assert_eq!(posix_interface_is_up("eth0", FlagsOutcome::Flags { flags: 0x1043 }), Ok(true));
    assert_eq!(posix_interface_is_up("eth0", FlagsOutcome::Flags { flags: 0x40 }), Ok(true));
    assert_eq!(posix_interface_is_up("eth0", FlagsOutcome::Flags { flags: -1 }), Ok(true));
}

#[test]
fn interface_that_is_only_administratively_up_is_down() {
    assert_eq!(posix_interface_is_up("eth0", FlagsOutcome::Flags { flags: 0x1003 }), Ok(false));
    assert_eq!(posix_interface_is_up("eth0", FlagsOutcome::Flags { flags: 0x1 }), Ok(false));
    assert_eq!(posix_interface_is_up("eth0", FlagsOutcome::Flags { flags: 0 }), Ok(false));
}

#[test]
fn interface_status_hands_on_the_failure() {
    assert_eq!(
        posix_interface_is_up("eth0", FlagsOutcome::QueryFailed { code: 19 }),
        Err(NetifacesError::SystemError { call: SystemCall::InterfaceFlags, code: 19 })
    );
}

#[test]
fn system_list_never_finds_a_name_that_is_not_there() {
    match posix_ifaddresses("__nonexistent__") {
        Ok(table) => panic!("found {:?}", table),
        Err(NetifacesError::NotFound) => {}
        Err(NetifacesError::SystemError { call, .. }) => {
            assert_eq!(call, SystemCall::InterfaceAddresses)
        }
        Err(other) => panic!("unexpected {:?}", other),
    }
}

#[test]
fn system_list_names_each_interface_once() {
    if let Ok(names) = posix_interfaces(InterfaceDisplay::MachineReadable) {
        let set: HashSet<&String> = names.iter().collect();
        assert_eq!(set.len(), names.len());
        let again = posix_interfaces(InterfaceDisplay::HumanReadable).unwrap();
        let set_again: HashSet<&String> = again.iter().collect();
        assert_eq!(set, set_again);
    }
}

#[test]
fn system_list_has_addresses_for_each_listed_interface() {
    if let Ok(names) = posix_interfaces(InterfaceDisplay::MachineReadable) {
        for name in &names {
            let table = posix_ifaddresses(name).unwrap();
            for (family, records) in &table {
                assert!(!records.is_empty());
                for record in records {
                    assert!(record.mask.is_none() || record.addr.is_some());
                    assert!(*family != 17 || record.broadcast.is_none());
                }
            }
        }
    }
}

#[test]
fn system_snapshot_agrees_with_the_listing() {
    if let Ok(entries) = address_snapshot() {
        for e in &entries {
            assert!(!e.interface_name.is_empty());
            for a in [&e.address, &e.netmask, &e.broadcast, &e.destination].into_iter().flatten() {
                let readings = [&a.link, &a.netlink, &a.vsock, &a.inet, &a.alg, &a.inet6];
                assert!(readings.iter().filter(|r| r.is_some()).count() <= 1);
                if let Some(text) = &a.inet {
                    assert_eq!(text.split('.').count(), 4);
                }
                if let Some(text) = &a.link {
                    assert!(text.is_empty() || text.split(':').count() == 6);
                }
            }
        }
    }
}

#[test]
fn system_index_table_has_no_empty_name() {
    if let Ok(table) = posix_interfaces_by_index(InterfaceDisplay::MachineReadable) {
        for (index, name) in &table {
            assert!(*index > 0);
            assert!(!name.is_empty());
        }
    }
}

#[test]
fn system_item_without_addresses_is_read_as_such() {
    let item = ("sit0".to_string(), None, None, None, None);
    assert_eq!(entry_of(&item), entry("sit0", None, None, None, None));
}

#[test]
fn system_list_is_read_item_by_item() {
    let found = vec![
        ("lo".to_string(), None, None, None, None),
        ("sit0".to_string(), None, None, None, None),
        ("lo".to_string(), None, None, None, None),
    ];
    let entries = snapshot_from(&Ok(found)).unwrap();
    assert_eq!(entries.len(), 3);
    assert_eq!(entries[0], entry("lo", None, None, None, None));
    assert_eq!(entries[1], entry("sit0", None, None, None, None));
    assert_eq!(entries[2].interface_name, "lo");
    assert_eq!(snapshot_from(&Ok(Vec::new())), Ok(Vec::new()));
}

#[test]
fn system_snapshot_gives_the_table_of_each_interface() {
    if let Ok(entries) = address_snapshot() {
        for e in &entries {
            let table = ifaddresses_of(&entries, &e.interface_name).unwrap();
            if let Some(text) = e.address.as_ref().and_then(|a| a.link.as_ref()) {
                let links = table.get(&17).unwrap();
                assert!(links.iter().any(|r| r.addr.as_ref() == Some(text)));
                assert!(text.is_empty() || text.len() == 17);
                assert!(text.chars().all(|c| c == ':' || c.is_ascii_hexdigit()));
            }
            if let Some(text) = e.address.as_ref().and_then(|a| a.inet.as_ref()) {
                let v4 = table.get(&2).unwrap();
                assert!(v4.iter().any(|r| r.addr.as_ref() == Some(text)));
                assert!(text.split('.').all(|group| group.parse::<u8>().is_ok()));
            }
        }
    }
}

#[test]
fn failed_query_becomes_a_system_error_with_its_number() {
    assert_eq!(
        snapshot_from(&Err(Errno::ENOMEM)),
        Err(NetifacesError::SystemError { call: SystemCall::InterfaceAddresses, code: 12 })
    );
    assert_eq!(
        snapshot_from(&Err(Errno::EPERM)),
        Err(NetifacesError::SystemError { call: SystemCall::InterfaceAddresses, code: 1 })
    );
}

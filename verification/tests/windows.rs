use netifaces::common::{InterfaceDisplay, InterfaceIdentity, NetifacesError};
use netifaces::types::IfAddrs;
use netifaces::win::{
    device_path, find_adapter, ifaddresses_ip, ifaddresses_mac, replace_hyphens,
    windows_ifaddresses, windows_interface_is_up, windows_interfaces,
    windows_interfaces_by_index, Adapter, OperStatus, UnicastAddress,
};

fn adapter(name: &str, description: &str, index: u32, status: OperStatus) -> Adapter {
    Adapter {
        identity: InterfaceIdentity {
            description: description.to_string(),
            name: name.to_string(),
            index,
        },
        unicast_addresses: Vec::new(),
        physical_address: None,
        operational_status: status,
    }
}

fn adapters() -> Vec<Adapter> {
    let mut ethernet = adapter(
        "{4D36E972-E325-11CE-BFC1-08002BE10318}",
        "Intel(R) Ethernet Connection",
        12,
        OperStatus::Up,
    );
    ethernet.unicast_addresses = vec![
        UnicastAddress::V6("fe80::1c2f:3a4b:5c6d:7e8f".to_string()),
        UnicastAddress::V4("192.168.1.20".to_string()),
        UnicastAddress::V4("10.0.0.5".to_string()),
    ];
    ethernet.physical_address = Some("00-1B-44-11-3A-B7".to_string());
    let mut loopback = adapter(
        "{6B29FC40-CA47-1067-B31D-00DD010662DA}",
        "Software Loopback Interface 1",
        1,
        OperStatus::Up,
    );
    loopback.unicast_addresses = vec![
        UnicastAddress::V6("::1".to_string()),
        UnicastAddress::V4("127.0.0.1".to_string()),
    ];
    let wifi = adapter("{AAAAAAAA-0000-0000-0000-000000000001}", "Wireless", 7, OperStatus::Down);
    vec![ethernet, loopback, wifi]
}

fn some(s: &str) -> Option<String> {
    Some(s.to_string())
}

#[test]
fn adapter_is_found_by_description_or_by_name() {
    let list = adapters();
    let by_description = find_adapter(&list, "Wireless").unwrap();
    assert_eq!(by_description.identity.index, 7);
    let by_name = find_adapter(&list, "{6B29FC40-CA47-1067-B31D-00DD010662DA}").unwrap();
    assert_eq!(by_name.identity.index, 1);
    assert_eq!(by_name, &list[1]);
}

#[test]
fn adapter_that_is_not_there_is_not_found() {
    assert_eq!(find_adapter(&adapters(), "__nonexistent__"), Err(NetifacesError::NotFound));
    assert_eq!(find_adapter(&adapters(), "wireless"), Err(NetifacesError::NotFound));
    assert_eq!(find_adapter(&Vec::new(), "Wireless"), Err(NetifacesError::NotFound));
}

#[test]
fn name_that_two_adapters_answer_to_is_a_violation() {
    let mut list = adapters();
    list.push(adapter("{BBBB}", "Wireless", 9, OperStatus::Up));
    assert_eq!(find_adapter(&list, "Wireless"), Err(NetifacesError::InvariantViolation));
    list.push(adapter("Intel(R) Ethernet Connection", "Other", 10, OperStatus::Up));
    assert_eq!(
        windows_ifaddresses(&list, "Intel(R) Ethernet Connection"),
        Err(NetifacesError::InvariantViolation)
    );
    assert_eq!(
        windows_interface_is_up(&list, "Wireless"),
        Err(NetifacesError::InvariantViolation)
    );
}

#[test]
fn adapter_whose_name_is_its_description_counts_once() {
    let list = vec![adapter("same", "same", 3, OperStatus::Up)];
    assert_eq!(find_adapter(&list, "same").unwrap().identity.index, 3);
}

#[test]
fn adapter_addresses_are_filed_by_family() {
    let table = windows_ifaddresses(&adapters(), "Intel(R) Ethernet Connection").unwrap();
    assert_eq!(table.len(), 3);
    let v4 = table.get(&2).unwrap();
    assert_eq!(v4.len(), 2);
    assert_eq!(v4[0].addr, some("192.168.1.20"));
    assert_eq!(v4[1].addr, some("10.0.0.5"));
    assert!(v4.iter().all(|r| r.mask.is_none() && r.broadcast.is_none() && r.peer.is_none()));
    let v6 = table.get(&10).unwrap();
    assert_eq!(v6.len(), 1);
    assert_eq!(v6[0].addr, some("fe80::1c2f:3a4b:5c6d:7e8f"));
}

#[test]
fn hardware_address_is_recorded_with_colons_in_lower_case() {
    let table = windows_ifaddresses(&adapters(), "Intel(R) Ethernet Connection").unwrap();
    let links = table.get(&17).unwrap();
    assert_eq!(links.len(), 1);
    assert_eq!(links[0].addr, some("00:1b:44:11:3a:b7"));
    assert_eq!(links[0].mask, None);
    assert_eq!(links[0].broadcast, None);
    assert_eq!(links[0].peer, None);
}

#[test]
fn adapter_without_hardware_address_has_no_link_record() {
    let table = windows_ifaddresses(&adapters(), "Software Loopback Interface 1").unwrap();
    assert_eq!(table.len(), 2);
    assert!(table.get(&17).is_none());
    assert_eq!(table.get(&2).unwrap()[0].addr, some("127.0.0.1"));
    assert_eq!(table.get(&10).unwrap()[0].addr, some("::1"));
}

#[test]
fn adapter_without_addresses_gives_an_empty_table() {
    assert_eq!(windows_ifaddresses(&adapters(), "Wireless"), Ok(IfAddrs::new()));
    assert_eq!(
        windows_ifaddresses(&adapters(), "__nonexistent__"),
        Err(NetifacesError::NotFound)
    );
}

#[test]
fn address_steps_append_to_the_table_they_are_given() {
    let list = adapters();
    let mut table = IfAddrs::new();
    assert_eq!(ifaddresses_mac(&list[0], &mut table), Ok(()));
    assert_eq!(ifaddresses_ip(&list[1], &mut table), Ok(()));
    assert_eq!(ifaddresses_ip(&list[0], &mut table), Ok(()));
    assert_eq!(ifaddresses_mac(&list[1], &mut table), Ok(()));
    assert_eq!(table.get(&17).unwrap().len(), 1);
    let v4 = table.get(&2).unwrap();
    assert_eq!(v4.len(), 3);
    assert_eq!(v4[0].addr, some("127.0.0.1"));
    assert_eq!(v4[2].addr, some("10.0.0.5"));
    assert_eq!(table.get(&10).unwrap().len(), 2);
}

#[test]
fn hyphens_become_colons() {
    assert_eq!(replace_hyphens("00-1B-44"), "00:1B:44");
    assert_eq!(replace_hyphens(""), "");
    assert_eq!(replace_hyphens("--a-"), "::a:");
    assert_eq!(replace_hyphens("no hyphen: é"), "no hyphen: é");
}

#[test]
fn interfaces_are_listed_in_either_mode() {
    assert_eq!(
        windows_interfaces(&adapters(), InterfaceDisplay::HumanReadable),
        vec!["Intel(R) Ethernet Connection", "Software Loopback Interface 1", "Wireless"]
    );
    assert_eq!(
        windows_interfaces(&adapters(), InterfaceDisplay::MachineReadable),
        vec![
            "{4D36E972-E325-11CE-BFC1-08002BE10318}",
            "{6B29FC40-CA47-1067-B31D-00DD010662DA}",
            "{AAAAAAAA-0000-0000-0000-000000000001}"
        ]
    );
    assert!(windows_interfaces(&Vec::new(), InterfaceDisplay::HumanReadable).is_empty());
}

#[test]
fn interfaces_that_share_an_identifier_are_listed_once() {
    let mut list = adapters();
    list.push(adapter("{CCCC}", "Wireless", 9, OperStatus::Up));
    list.push(adapter("{CCCC}", "Intel(R) Ethernet Connection", 10, OperStatus::Up));
    assert_eq!(
        windows_interfaces(&list, InterfaceDisplay::HumanReadable),
        vec!["Intel(R) Ethernet Connection", "Software Loopback Interface 1", "Wireless"]
    );
    assert_eq!(windows_interfaces(&list, InterfaceDisplay::MachineReadable).len(), 4);
}

#[test]
fn interfaces_are_filed_by_index_in_either_mode() {
    let human = windows_interfaces_by_index(&adapters(), InterfaceDisplay::HumanReadable);
    assert_eq!(human.len(), 3);
    assert_eq!(human.get(&12), some("Intel(R) Ethernet Connection").as_ref());
    assert_eq!(human.get(&1), some("Software Loopback Interface 1").as_ref());
    let machine = windows_interfaces_by_index(&adapters(), InterfaceDisplay::MachineReadable);
    assert_eq!(machine.get(&7), some("{AAAAAAAA-0000-0000-0000-000000000001}").as_ref());
    assert_eq!(machine.get(&2), None);
}

#[test]
fn adapters_that_share_an_index_leave_the_last() {
    let list = vec![
        adapter("a", "first", 0, OperStatus::Up),
        adapter("b", "second", 0, OperStatus::Up),
    ];
    let table = windows_interfaces_by_index(&list, InterfaceDisplay::HumanReadable);
    assert_eq!(table.len(), 1);
    assert_eq!(table.get(&0), some("second").as_ref());
}

#[test]
fn only_the_status_up_counts_as_up() {
    let statuses = [
        (OperStatus::Up, true),
        (OperStatus::Down, false),
        (OperStatus::Testing, false),
        (OperStatus::Unknown, false),
        (OperStatus::Dormant, false),
        (OperStatus::NotPresent, false),
        (OperStatus::LowerLayerDown, false),
    ];
    for (status, up) in statuses {
        let list = vec![adapter("{N}", "D", 1, status)];
        assert_eq!(windows_interface_is_up(&list, "D"), Ok(up));
        assert_eq!(windows_interface_is_up(&list, "{N}"), Ok(up));
    }
    assert_eq!(windows_interface_is_up(&adapters(), "nothing"), Err(NetifacesError::NotFound));
}

#[test]
fn identity_is_shown_by_the_display_mode() {
    let identity = InterfaceIdentity {
        description: "Wireless".to_string(),
        name: "{AAAA}".to_string(),
        index: 7,
    };
    assert_eq!(identity.identifier(InterfaceDisplay::HumanReadable), "Wireless");
    assert_eq!(identity.identifier(InterfaceDisplay::MachineReadable), "{AAAA}");
}

#[test]
fn device_path_is_built_from_the_internal_name() {
    assert_eq!(device_path("{4D36E972}"), "\\DEVICE\\TCPIP_{4D36E972}");
    assert_eq!(device_path(""), "\\DEVICE\\TCPIP_");
}

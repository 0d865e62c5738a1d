use efficax::addr::{endpoint, ip_of, port_of, with_port};
use efficax::address_book::AddressBook;
use efficax::data::{DespawnData, NetworkData};
use efficax::packet::NetworkPacket;
use efficax::sender::{SendAction, SenderClients};

#[test]
fn endpoints_pack_address_and_port() {
    let e = endpoint(0x7f000001, 8080);
    assert_eq!(e, 0x7f000001_1f90);
    assert_eq!(ip_of(e), 0x7f000001);
    assert_eq!(port_of(e), 8080);
    assert_eq!(with_port(e, 9000), endpoint(0x7f000001, 9000));
}

#[test]
fn sender_routes_tcp_and_udp() {
    let a = endpoint(0x0a000001, 5000);
    let b = endpoint(0x0a000002, 6000);
    let missing = endpoint(0x0a000003, 7000);
    let mut s = SenderClients::new();
    s.join(a);
    s.join(b);
    assert_eq!(s.udp_port(a), Some(0));
    let data = NetworkData::Despawn(DespawnData { entity_id: 1 });
    let tcp = NetworkPacket::multicast(true, vec![a, b, missing], 0, data.clone());
    assert_eq!(s.route(&tcp), vec![SendAction::Tcp(a), SendAction::Tcp(b), SendAction::Missing(missing)]);
    let udp = NetworkPacket::multicast(false, vec![a, b], 0, data.clone());
    assert_eq!(s.route(&udp), vec![]);
    s.init_udp(a, 7777);
    s.init_udp(a, 8888);
    assert_eq!(s.udp_port(a), Some(7777));
    assert_eq!(s.route(&udp), vec![SendAction::Udp(endpoint(0x0a000001, 7777))]);
    s.leave(a);
    assert_eq!(s.udp_port(a), None);
    assert_eq!(s.route(&udp), vec![SendAction::Missing(a)]);
    s.init_udp(missing, 1);
    assert_eq!(s.udp_port(missing), None);
}

#[test]
fn address_book_pairs_udp_with_tcp() {
    let tcp = endpoint(0x0a000001, 5000);
    let udp = endpoint(0x0a000001, 7000);
    let mut book = AddressBook::new();
    assert_eq!(book.resolve(false, udp), None);
    assert_eq!(book.resolve(true, tcp), Some(tcp));
    book.init_network(tcp, 7000);
    assert_eq!(book.resolve(false, udp), Some(tcp));
    book.forget(tcp);
    assert_eq!(book.resolve(false, udp), None);
    book.forget(tcp);
    assert_eq!(book.resolve(true, tcp), Some(tcp));
}

use rdmatop::net::{
    attribute_text, collect_ifstats, dump_ended, getlink_request, interface_deltas, net_byte_deltas,
    parse_ifstats, parse_link_stats64, read_all_ifstats, DumpError, IfStats, IFLA_IFNAME,
    IFLA_STATS64, RTM_GETLINK,
};
use rdmatop::netlink::{
    build_message, parse_attributes, parse_messages, NlMsg, NLMSG_DONE, NLMSG_ERROR,
};
use rdmatop::wire::{byte_order_of_probe, host_order, read_uint, write_uint, ByteOrder};

const LE: ByteOrder = ByteOrder::Little;

fn attr(attr_type: u16, data: &[u8]) -> Vec<u8> {
    let len = (4 + data.len()) as u16;
    let mut v = Vec::new();
    v.extend_from_slice(&len.to_le_bytes());
    v.extend_from_slice(&attr_type.to_le_bytes());
    v.extend_from_slice(data);
    while v.len() % 4 != 0 {
        v.push(0);
    }
    v
}

/// A `struct rtnl_link_stats64` prefix: packet counters, then byte counters,
/// then a few more fields.
fn stats64(rx: u64, tx: u64) -> Vec<u8> {
    let mut v = Vec::new();
    v.extend_from_slice(&7u64.to_le_bytes());
    v.extend_from_slice(&9u64.to_le_bytes());
    v.extend_from_slice(&rx.to_le_bytes());
    v.extend_from_slice(&tx.to_le_bytes());
    v.extend_from_slice(&[0u8; 16]);
    v
}

fn link_payload(attrs: &[Vec<u8>]) -> Vec<u8> {
    let mut p = vec![0u8; 16];
    for a in attrs {
        p.extend_from_slice(a);
    }
    p
}

fn link_msg(payload: Vec<u8>) -> NlMsg {
    NlMsg { msg_type: 16, flags: 2, seq: 1, pid: 0, payload }
}

#[test]
fn link_stats_short_data_reads_as_zero() {
    assert_eq!(parse_link_stats64(LE, &[1, 2, 3]), (0, 0));
    assert_eq!(parse_link_stats64(LE, &[0xff; 31]), (0, 0));
}

#[test]
fn link_stats_reads_byte_counters() {
    let mut data = Vec::new();
    for v in [1u64, 2, 300, 400] {
        data.extend_from_slice(&v.to_le_bytes());
    }
    assert_eq!(parse_link_stats64(LE, &data), (300, 400));
    data.extend_from_slice(&[0xee; 40]);
    assert_eq!(parse_link_stats64(LE, &data), (300, 400));
    let data = stats64(0x0102_0304_0506_0708, 42);
    assert_eq!(parse_link_stats64(LE, &data), (0x0102_0304_0506_0708, 42));
    let mut be = Vec::new();
    for v in [5u64, 6, 7, 9] {
        be.extend_from_slice(&v.to_be_bytes());
    }
    assert_eq!(parse_link_stats64(ByteOrder::Big, &be), (7, 9));
}

#[test]
fn parse_ifstats_reads_bytes_not_packets() {
    let mut counters = Vec::new();
    for v in [10u64, 20, 1000, 2000] {
        counters.extend_from_slice(&v.to_le_bytes());
    }
    let payload = link_payload(&[attr(IFLA_IFNAME, b"eth0"), attr(IFLA_STATS64, &counters)]);
    let st = parse_ifstats(LE, &link_msg(payload)).unwrap();
    assert_eq!((st.name.as_str(), st.rx_bytes, st.tx_bytes), ("eth0", 1000, 2000));
}

#[test]
fn host_order_matches_the_machine() {
    let expected = if u16::from_ne_bytes([1, 0]) == 1 { ByteOrder::Little } else { ByteOrder::Big };
    assert_eq!(host_order(), expected);
}

#[test]
fn integers_round_trip_in_both_orders() {
    for order in [ByteOrder::Little, ByteOrder::Big] {
        let mut out = vec![0xaa];
        write_uint(order, &mut out, 0x1234_5678, 4);
        write_uint(order, &mut out, 0xbeef, 2);
        assert_eq!(out.len(), 7);
        assert_eq!(read_uint(order, &out, 1, 4), 0x1234_5678);
        assert_eq!(read_uint(order, &out, 5, 2), 0xbeef);
    }
    let mut out = Vec::new();
    write_uint(ByteOrder::Big, &mut out, 0x0102, 2);
    assert_eq!(out, vec![1, 2]);
}

#[test]
fn getlink_request_bytes() {
    let req = getlink_request(LE, 1);
    let mut expected = vec![32, 0, 0, 0, 18, 0, 0x01, 0x03, 1, 0, 0, 0, 0, 0, 0, 0];
    expected.extend_from_slice(&[0u8; 16]);
    assert_eq!(req, expected);
}

#[test]
fn built_message_parses_back() {
    let bytes = build_message(ByteOrder::Big, RTM_GETLINK, 0x301, 77, 5, &[9, 8, 7]);
    let msgs = parse_messages(ByteOrder::Big, &bytes);
    assert_eq!(msgs.len(), 1);
    assert_eq!(msgs[0].msg_type, RTM_GETLINK);
    assert_eq!(msgs[0].flags, 0x301);
    assert_eq!(msgs[0].seq, 77);
    assert_eq!(msgs[0].pid, 5);
    assert_eq!(msgs[0].payload, vec![9, 8, 7]);
}

#[test]
fn messages_stop_at_bad_header() {
    let mut buf = build_message(LE, 16, 2, 1, 0, &[1, 2, 3, 4]);
    let second = build_message(LE, NLMSG_DONE, 2, 1, 0, &[0, 0, 0, 0]);
    buf.extend_from_slice(&second);
    assert_eq!(parse_messages(LE, &buf).len(), 2);
    let mut bad = buf.clone();
    bad[20] = 8; // second length field below the header size
    let msgs = parse_messages(LE, &bad);
    assert_eq!(msgs.len(), 1);
    assert_eq!(msgs[0].payload, vec![1, 2, 3, 4]);
    assert_eq!(parse_messages(LE, &buf[..10]).len(), 0);
}

#[test]
fn attributes_are_aligned_and_masked() {
    let mut data = attr(IFLA_IFNAME, b"eth0\0");
    data.extend_from_slice(&attr(0x8000 | 5, &[1, 2]));
    let attrs = parse_attributes(LE, &data);
    assert_eq!(attrs.len(), 2);
    assert_eq!(attrs[0].attr_type, IFLA_IFNAME);
    assert_eq!(attrs[0].data, b"eth0\0".to_vec());
    assert_eq!(attrs[1].attr_type, 5);
    assert_eq!(attrs[1].data, vec![1, 2]);
    // a length that runs past the end stops the walk
    let mut cut = data.clone();
    cut[12] = 200;
    assert_eq!(parse_attributes(LE, &cut).len(), 1);
}

#[test]
fn attribute_text_stops_at_nul_and_rejects_bad_utf8() {
    assert_eq!(attribute_text(b"eth0\0junk"), "eth0");
    assert_eq!(attribute_text(b"wlan1"), "wlan1");
    assert_eq!(attribute_text("né0\0".as_bytes()), "né0");
    assert_eq!(attribute_text(&[0x66, 0xff, 0x66, 0]), "");
    assert_eq!(attribute_text(&[]), "");
}

#[test]
fn parse_ifstats_reads_name_and_counters() {
    let payload = link_payload(&[attr(IFLA_IFNAME, b"eth0\0"), attr(IFLA_STATS64, &stats64(1000, 2000))]);
    let st = parse_ifstats(LE, &link_msg(payload)).unwrap();
    assert_eq!(st.name, "eth0");
    assert_eq!(st.rx_bytes, 1000);
    assert_eq!(st.tx_bytes, 2000);
}

#[test]
fn parse_ifstats_without_counters_reads_zero() {
    let payload = link_payload(&[attr(IFLA_IFNAME, b"ib0\0")]);
    let st = parse_ifstats(LE, &link_msg(payload)).unwrap();
    assert_eq!((st.name.as_str(), st.rx_bytes, st.tx_bytes), ("ib0", 0, 0));
}

#[test]
fn parse_ifstats_last_attribute_wins() {
    let payload = link_payload(&[
        attr(IFLA_IFNAME, b"first\0"),
        attr(IFLA_STATS64, &stats64(1, 2)),
        attr(IFLA_IFNAME, b"second\0"),
        attr(IFLA_STATS64, &stats64(3, 4)),
    ]);
    let st = parse_ifstats(LE, &link_msg(payload)).unwrap();
    assert_eq!((st.name.as_str(), st.rx_bytes, st.tx_bytes), ("second", 3, 4));
}

#[test]
fn parse_ifstats_skips_loopback_unnamed_and_short() {
    let lo = link_payload(&[attr(IFLA_IFNAME, b"lo\0"), attr(IFLA_STATS64, &stats64(5, 5))]);
    assert!(parse_ifstats(LE, &link_msg(lo)).is_none());
    let unnamed = link_payload(&[attr(IFLA_STATS64, &stats64(5, 5))]);
    assert!(parse_ifstats(LE, &link_msg(unnamed)).is_none());
    assert!(parse_ifstats(LE, &link_msg(vec![0u8; 15])).is_none());
    let lo0 = link_payload(&[attr(IFLA_IFNAME, b"lo0\0")]);
    assert_eq!(parse_ifstats(LE, &link_msg(lo0)).unwrap().name, "lo0");
}

fn datagram(msgs: &[(u16, Vec<u8>)]) -> Vec<u8> {
    let mut d = Vec::new();
    for (t, p) in msgs {
        d.extend_from_slice(&build_message(LE, *t, 2, 1, 0, p));
    }
    d
}

#[test]
fn read_all_ifstats_collects_until_done() {
    let eth0 = link_payload(&[attr(IFLA_IFNAME, b"eth0\0"), attr(IFLA_STATS64, &stats64(10, 20))]);
    let lo = link_payload(&[attr(IFLA_IFNAME, b"lo\0")]);
    let eth1 = link_payload(&[attr(IFLA_IFNAME, b"eth1\0"), attr(IFLA_STATS64, &stats64(30, 40))]);
    let d1 = datagram(&[(16, eth0), (16, lo)]);
    let d2 = datagram(&[(16, eth1.clone()), (NLMSG_DONE, vec![0, 0, 0, 0]), (16, eth1)]);
    assert!(!dump_ended(LE, &d1));
    assert!(dump_ended(LE, &d2));
    let all = read_all_ifstats(LE, &vec![d1, d2]).unwrap();
    let names: Vec<&str> = all.iter().map(|s| s.name.as_str()).collect();
    assert_eq!(names, vec!["eth0", "eth1"]);
    assert_eq!((all[1].rx_bytes, all[1].tx_bytes), (30, 40));
}

#[test]
fn read_all_ifstats_reports_kernel_error() {
    let eth0 = link_payload(&[attr(IFLA_IFNAME, b"eth0\0")]);
    let d = datagram(&[(16, eth0), (NLMSG_ERROR, (-95i32).to_le_bytes().to_vec())]);
    assert!(dump_ended(LE, &d));
    assert_eq!(read_all_ifstats(LE, &vec![d]).unwrap_err(), DumpError::Kernel(-95));
}

#[test]
fn acknowledgement_ends_dump_without_error() {
    let eth0 = link_payload(&[attr(IFLA_IFNAME, b"eth0\0")]);
    let d = datagram(&[(16, eth0), (NLMSG_ERROR, vec![0, 0, 0, 0])]);
    assert_eq!(read_all_ifstats(LE, &vec![d]).unwrap().len(), 1);
}

#[test]
fn collect_ifstats_without_done_keeps_everything() {
    let eth0 = link_payload(&[attr(IFLA_IFNAME, b"eth0\0")]);
    let msgs = vec![link_msg(eth0)];
    assert_eq!(collect_ifstats(LE, &msgs).unwrap().len(), 1);
    assert!(read_all_ifstats(LE, &vec![]).unwrap().is_empty());
}

fn snap(name: &str, rx: u64, tx: u64) -> IfStats {
    IfStats { name: name.to_string(), rx_bytes: rx, tx_bytes: tx }
}

#[test]
fn deltas_sum_growth_of_matching_interfaces() {
    let prev = vec![snap("eth0", 100, 1000), snap("eth1", 50, 50)];
    let curr = vec![snap("eth1", 80, 60), snap("eth0", 150, 1100), snap("eth2", 999, 999)];
    assert_eq!(net_byte_deltas(&prev, &curr), Some((80, 110)));
}

#[test]
fn deltas_counter_reset_counts_zero() {
    let prev = vec![snap("eth0", 500, 500)];
    let curr = vec![snap("eth0", 10, 600)];
    assert_eq!(net_byte_deltas(&prev, &curr), Some((0, 100)));
}

#[test]
fn deltas_same_snapshot_is_zero() {
    let s = vec![snap("eth0", 5, 6), snap("eth1", 7, 8)];
    assert_eq!(net_byte_deltas(&s, &s), Some((0, 0)));
}

#[test]
fn deltas_first_match_is_used() {
    let prev = vec![snap("eth0", 5, 5), snap("eth0", 0, 0)];
    let curr = vec![snap("eth0", 10, 10)];
    assert_eq!(net_byte_deltas(&prev, &curr), Some((5, 5)));
}

#[test]
fn deltas_overflow_is_none() {
    let prev = vec![snap("a", 0, 0), snap("b", 0, 0)];
    let curr = vec![snap("a", u64::MAX, 1), snap("b", 1, 1)];
    assert_eq!(net_byte_deltas(&prev, &curr), None);
}

#[test]
fn deltas_add_up_over_interfaces() {
    let prev = vec![snap("eth0", 100, 100), snap("eth1", 0, 0)];
    let a = vec![snap("eth0", 150, 130)];
    let b = vec![snap("eth1", 40, 2), snap("eth9", 5, 5)];
    let mut ab = a.clone();
    ab.extend(b.iter().cloned());
    let (ra, ta) = net_byte_deltas(&prev, &a).unwrap();
    let (rb, tb) = net_byte_deltas(&prev, &b).unwrap();
    assert_eq!(net_byte_deltas(&prev, &ab), Some((ra + rb, ta + tb)));
}

#[test]
fn getlink_request_reads_back() {
    for order in [ByteOrder::Little, ByteOrder::Big] {
        let msgs = parse_messages(order, &getlink_request(order, 9));
        assert_eq!(msgs.len(), 1);
        assert_eq!((msgs[0].msg_type, msgs[0].flags, msgs[0].seq, msgs[0].pid), (RTM_GETLINK, 0x301, 9, 0));
        assert_eq!(msgs[0].payload, vec![0u8; 16]);
    }
}

#[test]
fn probe_decides_byte_order() {
    assert_eq!(byte_order_of_probe(1), ByteOrder::Little);
    assert_eq!(byte_order_of_probe(256), ByteOrder::Big);
    assert_eq!(byte_order_of_probe(u16::from_ne_bytes([1, 0])), host_order());
}

#[test]
fn same_snapshot_with_repeated_name_and_smaller_later_counter() {
    let s = vec![snap("eth0", 10, 10), snap("eth0", 5, 5)];
    assert_eq!(net_byte_deltas(&s, &s), Some((0, 0)));
    let t = vec![snap("eth0", 5, 5), snap("eth0", 10, 10)];
    assert_eq!(net_byte_deltas(&t, &t), Some((5, 5)));
}

#[test]
fn per_interface_deltas() {
    let prev = vec![snap("eth0", 100, 1000), snap("eth1", 50, 50)];
    let curr = vec![snap("eth1", 80, 40), snap("eth0", 150, 1100), snap("eth2", 999, 999)];
    assert_eq!(interface_deltas(&prev, &curr), vec![(30, 0), (50, 100), (0, 0)]);
    assert!(interface_deltas(&prev, &[]).is_empty());
}

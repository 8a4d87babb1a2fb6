use node_addr::IpAddress;

#[test]
fn ipv4_text_is_dotted_decimal() {
    assert_eq!(IpAddress::V4(2, 5, 8, 1).to_text(), "2.5.8.1");
    assert_eq!(IpAddress::V4(0, 0, 0, 0).to_text(), "0.0.0.0");
    assert_eq!(IpAddress::V4(255, 255, 255, 255).to_text(), "255.255.255.255");
    assert_eq!(IpAddress::V4(192, 168, 10, 109).to_text(), "192.168.10.109");
}

#[test]
fn ipv6_text_without_zero_segments() {
    assert_eq!(
        IpAddress::V6(0x2001, 0xdb8, 0x85a3, 0x8d3, 0x1319, 0x8a2e, 0x370, 0x7348).to_text(),
        "2001:db8:85a3:8d3:1319:8a2e:370:7348"
    );
    assert_eq!(
        IpAddress::V6(0xffff, 0xffff, 0xffff, 0xffff, 0xffff, 0xffff, 0xffff, 0xffff).to_text(),
        "ffff:ffff:ffff:ffff:ffff:ffff:ffff:ffff"
    );
    assert_eq!(
        IpAddress::V6(0xabcd, 0xef01, 0x10, 0x100, 0x1000, 0xa, 0xf0, 0x9).to_text(),
        "abcd:ef01:10:100:1000:a:f0:9"
    );
}

#[test]
fn ipv6_text_leaves_out_the_run_of_zero_segments() {
    assert_eq!(IpAddress::V6(0, 0, 0, 0, 0, 0, 0, 0).to_text(), "::");
    assert_eq!(IpAddress::V6(0, 0, 0, 0, 0, 0, 0, 1).to_text(), "::1");
    assert_eq!(IpAddress::V6(1, 0, 0, 0, 0, 0, 0, 0).to_text(), "1::");
    assert_eq!(IpAddress::V6(0x2001, 0xdb8, 0, 0, 0, 0, 0, 1).to_text(), "2001:db8::1");
    assert_eq!(IpAddress::V6(0xfe80, 0, 0, 0, 0x1234, 0x5678, 0x9abc, 0xdef0).to_text(), "fe80::1234:5678:9abc:def0");
    assert_eq!(IpAddress::V6(0, 0, 1, 2, 3, 4, 5, 6).to_text(), "::1:2:3:4:5:6");
    assert_eq!(IpAddress::V6(1, 2, 3, 4, 5, 6, 0, 0).to_text(), "1:2:3:4:5:6::");
}

#[test]
fn ipv6_text_keeps_a_single_zero_segment() {
    assert_eq!(IpAddress::V6(0x2001, 0xdb8, 0, 1, 1, 1, 1, 1).to_text(), "2001:db8:0:1:1:1:1:1");
    assert_eq!(IpAddress::V6(0, 1, 0, 1, 0, 1, 0, 1).to_text(), "0:1:0:1:0:1:0:1");
    assert_eq!(IpAddress::V6(1, 2, 3, 4, 5, 6, 7, 0).to_text(), "1:2:3:4:5:6:7:0");
}

#[test]
fn ipv6_text_leaves_out_the_longest_run() {
    assert_eq!(IpAddress::V6(0x2001, 0, 0, 1, 0, 0, 0, 1).to_text(), "2001:0:0:1::1");
    assert_eq!(IpAddress::V6(0x2001, 0, 0, 0, 1, 0, 0, 1).to_text(), "2001::1:0:0:1");
    assert_eq!(IpAddress::V6(0, 0, 1, 0, 0, 0, 0, 0).to_text(), "0:0:1::");
}

#[test]
fn ipv6_text_leaves_out_the_first_of_two_runs_of_one_length() {
    assert_eq!(IpAddress::V6(0x2001, 0xdb8, 0, 0, 1, 0, 0, 1).to_text(), "2001:db8::1:0:0:1");
    assert_eq!(IpAddress::V6(0, 0, 0, 1, 0, 0, 0, 1).to_text(), "::1:0:0:0:1");
}

#[test]
fn ipv6_text_of_a_mapped_ipv4_address() {
    assert_eq!(IpAddress::V6(0, 0, 0, 0, 0, 0xffff, 0xc000, 0x280).to_text(), "::ffff:192.0.2.128");
    assert_eq!(IpAddress::V6(0, 0, 0, 0, 0, 0xffff, 0, 0).to_text(), "::ffff:0.0.0.0");
    assert_eq!(IpAddress::V6(0, 0, 0, 0, 0, 0xffff, 0xffff, 0xffff).to_text(), "::ffff:255.255.255.255");
    assert_eq!(IpAddress::V6(0, 0, 0, 0, 1, 0xffff, 0xc000, 0x280).to_text(), "::1:ffff:c000:280");
}

#[test]
fn append_to_keeps_what_the_text_held() {
    let mut text = String::from("at ");
    IpAddress::V4(10, 1, 2, 3).append_to(&mut text);
    text.push_str(" and ");
    IpAddress::V6(0, 0, 0, 0, 0, 0, 0, 1).append_to(&mut text);

    assert_eq!(text, "at 10.1.2.3 and ::1");
}

#[test]
fn ip_addresses_compare_by_their_parts() {
    assert_eq!(IpAddress::V4(1, 2, 3, 4), IpAddress::V4(1, 2, 3, 4));
    assert_ne!(IpAddress::V4(1, 2, 3, 4), IpAddress::V4(1, 2, 3, 5));
    assert_ne!(IpAddress::V4(0, 0, 0, 1), IpAddress::V6(0, 0, 0, 0, 0, 0, 0, 1));
    let copy = IpAddress::V6(1, 2, 3, 4, 5, 6, 7, 8);
    let same = copy;
    assert_eq!(copy, same);
}

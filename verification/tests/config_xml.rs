use vpn_core::config_xml::{
    attribute_assigned_ip, config_from_events, fallback_assigned_ipv4, is_assigned_addr_tag,
    is_ipv4_tunnel_tag, parse_ipv4_trimmed, parse_vpn_config_xml, scan_quoted_ipv4_attr,
    try_parse_vpn_config_xml, xml_local_name, Search,
};
use vpn_core::xml::{read_events, XmlElement, XmlEvent};

#[test]
fn assigned_ipv4_attribute() {
    let xml = r#"<cfg><assigned-addr ipv4="10.1.2.3"/></cfg>"#;
    let c = parse_vpn_config_xml(xml).unwrap();
    assert_eq!(c.assigned_ip, "10.1.2.3");
}

#[test]
fn sslvpn_tunnel_nested_ipv4_block() {
    let xml = r#"<?xml version='1.0'?><sslvpn-tunnel ver='1'><ipv4><assigned-addr ipv4='192.168.1.6'/></ipv4></sslvpn-tunnel>"#;
    let c = parse_vpn_config_xml(xml).unwrap();
    assert_eq!(c.assigned_ip, "192.168.1.6");
}

#[test]
fn ipv4_leaf_single_tag() {
    let xml = r#"<t><ipv4 ipv4="10.9.9.9"/></t>"#;
    let c = parse_vpn_config_xml(xml).unwrap();
    assert_eq!(c.assigned_ip, "10.9.9.9");
}

#[test]
fn expanded_namespace_brace_name() {
    let tag = b"{http://example.com/ns}assigned-addr";
    assert!(is_assigned_addr_tag(tag));
}

#[test]
fn assigned_ip_attribute_alias() {
    let xml = r#"<ssltunnel><assigned-addr ip='192.168.99.7'/></ssltunnel>"#;
    let c = parse_vpn_config_xml(xml).unwrap();
    assert_eq!(c.assigned_ip, "192.168.99.7");
}

#[test]
fn assigned_text_body() {
    let xml = "<vpn>\n<assigned-addr>\n  172.16.0.44 \n</assigned-addr>\n</vpn>";
    let c = parse_vpn_config_xml(xml).unwrap();
    assert_eq!(c.assigned_ip, "172.16.0.44");
}

#[test]
fn namespaced_prefix_tag() {
    let xml = r#"<r xmlns:f="x"><f:assigned-addr ipv4="10.0.0.2"/></r>"#;
    let c = parse_vpn_config_xml(xml).unwrap();
    assert_eq!(c.assigned_ip, "10.0.0.2");
}

#[test]
fn fallback_scan_raw() {
    let xml = r#"<!-- x --><assigned_addr ipv4="10.10.10.10"/>"#;
    let c = parse_vpn_config_xml(xml).unwrap();
    assert_eq!(c.assigned_ip, "10.10.10.10");
}

#[test]
fn strips_bom() {
    let xml = "\u{feff}<r><assigned-addr ipv4=\"1.2.3.4\"/></r>";
    let c = parse_vpn_config_xml(xml).unwrap();
    assert_eq!(c.assigned_ip, "1.2.3.4");
}

#[test]
fn name_servers_and_networks_are_collected() {
    let xml = "<sslvpn-tunnel><dns ip='10.0.0.53'/><dns ip='10.0.0.54' domain='corp.local'/>\
               <split-tunnel-info><addr ip='10.20.0.0' mask='255.255.0.0'/>\
               <addr ip='10.30.0.0'/></split-tunnel-info>\
               <ipv4><assigned-addr ipv4='10.1.1.1'/></ipv4></sslvpn-tunnel>";
    let c = parse_vpn_config_xml(xml).unwrap();
    assert_eq!(c.dns_servers, vec!["10.0.0.53".to_string(), "10.0.0.54".to_string()]);
    assert_eq!(c.dns_suffix, Some("corp.local".to_string()));
    assert_eq!(c.split_routes, vec![("10.20.0.0".to_string(), "255.255.0.0".to_string())]);
    assert_eq!(c.assigned_ip, "10.1.1.1");
}

#[test]
fn networks_without_an_address_or_a_mask_are_left_out() {
    let xml = "<r><assigned-addr ipv4='10.1.1.1'/><addr ip='' mask='255.0.0.0'/>\
               <addr ip='10.0.0.0' mask=''/><addr mask='255.0.0.0'/>\
               <addr ip='11.0.0.0' mask='255.0.0.0'/></r>";
    let c = parse_vpn_config_xml(xml).unwrap();
    assert_eq!(c.split_routes, vec![("11.0.0.0".to_string(), "255.0.0.0".to_string())]);
}

#[test]
fn the_first_address_stays() {
    let xml = "<r><assigned-addr ipv4='10.1.1.1'/><assigned-addr ipv4='10.2.2.2'/></r>";
    assert_eq!(parse_vpn_config_xml(xml).unwrap().assigned_ip, "10.1.1.1");
}

#[test]
fn an_address_in_cdata_counts() {
    let xml = "<r><assigned-addr><![CDATA[ 10.4.4.4 ]]></assigned-addr></r>";
    assert_eq!(parse_vpn_config_xml(xml).unwrap().assigned_ip, "10.4.4.4");
}

#[test]
fn text_outside_the_element_does_not_count() {
    let xml = "<r><other>10.4.4.4</other></r>";
    assert_eq!(
        parse_vpn_config_xml(xml).err(),
        Some("No assigned IP in VPN config XML (assigned-addr / ipv4); schema gateway non standard o risposta vuota.".to_string())
    );
}

#[test]
fn a_broken_text_is_an_error() {
    let e = parse_vpn_config_xml("<a></b>").err().unwrap();
    assert!(e.starts_with("XML parse error: "));
    assert!(e.len() > "XML parse error: ".len());
}

#[test]
fn an_attribute_without_a_value_is_passed_over() {
    let xml = "<r><assigned-addr broken ipv4='10.5.5.5'/></r>";
    assert_eq!(parse_vpn_config_xml(xml).unwrap().assigned_ip, "10.5.5.5");
}

#[test]
fn the_address_is_searched_in_a_comment() {
    let xml = "<r><!-- <assigned-addr address = '10.6.6.6'> --></r>";
    assert!(parse_vpn_config_xml(xml).is_err());
    let xml = "<r><!-- <assigned-addr Address=  '10.6.6.6'> --></r>";
    assert_eq!(parse_vpn_config_xml(xml).unwrap().assigned_ip, "10.6.6.6");
}

#[test]
fn a_character_across_the_end_of_the_window_cuts_the_search() {
    let mut xml = String::from("<r><!-- assigned-addr");
    for _ in 0..465 {
        xml.push('x');
    }
    // 13 + 465 bytes of the window so far; the next character takes three.
    xml.push('€');
    for _ in 0..50 {
        xml.push('y');
    }
    xml.push_str(" --></r>");
    // The tag of the comment's end lies further on, so the window reaches past it.
    assert!(try_parse_vpn_config_xml(&xml).is_some());
    let cut = xml.replace("-->", "--").replace("</r>", "").replace('<', " ");
    assert!(matches!(fallback_assigned_ipv4(&cut), Search::Cut));
    assert!(try_parse_vpn_config_xml(&cut).is_none());
    let with_address = format!("<r><assigned-addr ipv4='10.7.7.7'/>{}</r>", cut);
    assert!(try_parse_vpn_config_xml(&with_address).unwrap().is_ok());
}

#[test]
fn names_without_namespace() {
    assert_eq!(xml_local_name(b"a:b:c"), b"c");
    assert_eq!(xml_local_name(b"plain"), b"plain");
    assert_eq!(xml_local_name(b"{ns}name"), b"name");
    assert_eq!(xml_local_name(b"{ns}"), b"{ns}");
    assert_eq!(xml_local_name(b"{x:y"), b"y");
    assert!(is_ipv4_tunnel_tag(b"f:IPv4"));
    assert!(!is_ipv4_tunnel_tag(b"ipv6"));
}

#[test]
fn addresses_in_attributes_and_text() {
    assert_eq!(attribute_assigned_ip(b"x:Address", b" 10.0.0.1 "), Some("10.0.0.1".to_string()));
    assert_eq!(attribute_assigned_ip(b"mask", b"10.0.0.1"), None);
    assert_eq!(attribute_assigned_ip(b"ip", b"10.0.0.256"), None);
    assert_eq!(parse_ipv4_trimmed(b"\n 1.2.3.4\t"), Some("1.2.3.4".to_string()));
    assert_eq!(parse_ipv4_trimmed(b"01.2.3.4"), None);
    assert_eq!(parse_ipv4_trimmed(b"1.2.3"), None);
    assert_eq!(parse_ipv4_trimmed(b"1.2.3.4.5"), None);
    assert_eq!(parse_ipv4_trimmed(b"+1.2.3.4"), None);
}

#[test]
fn quoted_addresses() {
    let scan = |s: &str, attr: &str| {
        let cs: Vec<char> = s.chars().collect();
        scan_quoted_ipv4_attr(&cs, attr)
    };
    assert_eq!(scan("x IP= \"10.0.0.9\" y", "ip"), Some("10.0.0.9".to_string()));
    assert_eq!(scan("ip='10.0.0.9\"", "ip"), None);
    assert_eq!(scan("ip=10.0.0.9", "ip"), None);
    assert_eq!(scan("ip=", "ip"), None);
    assert_eq!(scan("nothing", "ip"), None);
    assert_eq!(scan("ip='x'", "ip"), None);
}

#[test]
fn events_of_a_text() {
    let events = read_events("<a k='v' bad> t <b/></a>", true);
    assert_eq!(events.len(), 5);
    match &events[0] {
        XmlEvent::Start(e) => {
            assert_eq!(e.name, b"a".to_vec());
            assert_eq!(e.attributes, vec![Some((b"k".to_vec(), b"v".to_vec())), None]);
        }
        _ => panic!("no start"),
    }
    assert!(matches!(&events[1], XmlEvent::Text(t) if t.as_slice() == b"t"));
    assert!(matches!(&events[2], XmlEvent::Empty(e) if e.name.as_slice() == b"b"));
    assert!(matches!(&events[3], XmlEvent::End(n) if n.as_slice() == b"a"));
    assert!(matches!(&events[4], XmlEvent::Eof));
}

#[test]
fn configuration_from_events() {
    let tag = XmlElement {
        name: b"assigned-addr".to_vec(),
        attributes: vec![None, Some((b"ip".to_vec(), b"10.8.8.8".to_vec()))],
    };
    let events = vec![XmlEvent::Other, XmlEvent::Empty(tag), XmlEvent::Eof];
    assert_eq!(config_from_events(&events, "").unwrap().assigned_ip, "10.8.8.8");
    let failed = vec![XmlEvent::Failed("bad".to_string())];
    assert_eq!(config_from_events(&failed, "").err(), Some("XML parse error: bad".to_string()));
}

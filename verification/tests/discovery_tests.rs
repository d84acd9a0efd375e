use unpeel_ui::discovery::{
    add_instances, build_ptr_query, candidate, candidates_from, finish_browse, merging,
    parse_dns_records, parse_mdns_response, txt_get, DiscoveryError, NearbyHostCandidate,
    MDNS_SERVICE_TYPE,
};

fn txt(pairs: &[(&str, &str)]) -> Vec<(String, String)> {
    pairs
        .iter()
        .map(|(k, v)| (k.to_string(), v.to_string()))
        .collect()
}

fn get<'a>(txt: &'a [(String, String)], key: &str) -> Option<&'a str> {
    txt.iter().rev().find(|(k, _)| k == key).map(|(_, v)| v.as_str())
}

#[test]
fn candidate_requires_macid() {
    assert!(candidate("Mac", &txt(&[])).is_none());
    assert!(candidate("Mac", &txt(&[("macid", "   ")]).clone()).is_none());
    let c = candidate("My Mac", &txt(&[("macid", "  abc-123  ")]).clone()).unwrap();
    assert_eq!(c.host_id, "abc-123");
    assert_eq!(c.name, "My Mac");
}

#[test]
fn candidate_blank_name_falls_back() {
    let c = candidate("   ", &txt(&[("macid", "x")]).clone()).unwrap();
    assert_eq!(c.name, "Unpeel Host");
}

#[test]
fn candidate_uses_the_last_macid() {
    let c = candidate("M", &txt(&[("macid", "a"), ("other", "z"), ("macid", "b")])).unwrap();
    assert_eq!(c.host_id, "b");
    assert_eq!(c.id(), "b");
    let t = txt(&[("k", "1"), ("k", "2")]);
    assert_eq!(txt_get(&t, "k").map(|s| s.as_str()), Some("2"));
    assert_eq!(txt_get(&t, "j"), None);
}

#[test]
fn merging_dedups_excludes_and_sorts() {
    let cs = vec![
        NearbyHostCandidate {
            host_id: "B".into(),
            name: "zeta".into(),
        },
        NearbyHostCandidate {
            host_id: "b".into(),
            name: "ZETA-DUP".into(),
        },
        NearbyHostCandidate {
            host_id: "A".into(),
            name: "Alpha".into(),
        },
        NearbyHostCandidate {
            host_id: "SELF".into(),
            name: "Me".into(),
        },
        NearbyHostCandidate {
            host_id: "C".into(),
            name: "alpha".into(),
        },
    ];
    let merged = merging(cs, Some("self"));
    let ids: Vec<&str> = merged.iter().map(|c| c.host_id.as_str()).collect();
    // "self" excluded; "B"/"b" deduped to first-seen; sorted by
    // case-insensitive name, host id tiebreak.
    assert_eq!(ids, vec!["A", "C", "B"]);
}

#[test]
fn merging_ignores_blank_exclusion() {
    let cs = vec![NearbyHostCandidate {
        host_id: "x".into(),
        name: "n".into(),
    }];
    assert_eq!(merging(cs.clone(), Some("   ")).len(), 1);
    assert_eq!(merging(cs.clone(), None).len(), 1);
    assert!(merging(cs, Some("  X ")).is_empty());
}

#[test]
fn query_packet_shape() {
    let q = build_ptr_query(MDNS_SERVICE_TYPE);
    // header (12) + labels + root + qtype/qclass (4)
    assert!(q.len() > 16);
    assert_eq!(&q[0..2], &[0x00, 0x00]);
    assert_eq!(&q[4..6], &[0x00, 0x01]); // one question
    assert_eq!(&q[q.len() - 4..], &[0x00, 0x0c, 0x00, 0x01]); // PTR/IN
}

#[test]
fn query_packet_labels() {
    let q = build_ptr_query("ab.c");
    assert_eq!(
        q,
        vec![0, 0, 0, 0, 0, 1, 0, 0, 0, 0, 0, 0, 2, b'a', b'b', 1, b'c', 0, 0, 12, 0, 1]
    );
}

fn encode_name(out: &mut Vec<u8>, name: &str) {
    for label in name.split('.') {
        out.push(label.len() as u8);
        out.extend_from_slice(label.as_bytes());
    }
    out.push(0);
}

/// Build a synthetic mDNS response: one PTR + one TXT with macid.
fn fake_response() -> Vec<u8> {
    let mut p = Vec::new();
    p.extend_from_slice(&[0x00, 0x00]); // id
    p.extend_from_slice(&[0x84, 0x00]); // flags: response, authoritative
    p.extend_from_slice(&[0x00, 0x00]); // qdcount
    p.extend_from_slice(&[0x00, 0x02]); // ancount = 2
    p.extend_from_slice(&[0x00, 0x00, 0x00, 0x00]); // ns/ar
    encode_name(&mut p, MDNS_SERVICE_TYPE);
    p.extend_from_slice(&[0x00, 0x0c, 0x00, 0x01]); // PTR/IN
    p.extend_from_slice(&[0x00, 0x00, 0x00, 0x78]); // ttl
    let mut target = Vec::new();
    encode_name(&mut target, "MyMac._unpeel-remote._tcp.local");
    p.extend_from_slice(&(target.len() as u16).to_be_bytes());
    p.extend_from_slice(&target);
    encode_name(&mut p, "MyMac._unpeel-remote._tcp.local");
    p.extend_from_slice(&[0x00, 0x10, 0x00, 0x01]); // TXT/IN
    p.extend_from_slice(&[0x00, 0x00, 0x00, 0x78]); // ttl
    let kv = b"macid=host-1";
    p.extend_from_slice(&((kv.len() + 1) as u16).to_be_bytes());
    p.push(kv.len() as u8);
    p.extend_from_slice(kv);
    p
}

#[test]
fn parses_ptr_and_txt() {
    let parsed = parse_mdns_response(&fake_response());
    assert_eq!(parsed.len(), 1);
    let (instance, txt) = &parsed[0];
    assert_eq!(instance, "MyMac._unpeel-remote._tcp.local");
    assert_eq!(get(txt, "macid"), Some("host-1"));
    let c = candidate(
        instance.strip_suffix("._unpeel-remote._tcp.local").unwrap(),
        txt,
    )
    .unwrap();
    assert_eq!(c.host_id, "host-1");
    assert_eq!(c.name, "MyMac");
}

#[test]
fn rejects_non_responses() {
    let mut q = build_ptr_query(MDNS_SERVICE_TYPE);
    assert!(parse_mdns_response(&q).is_empty());
    q.clear();
    assert!(parse_mdns_response(&q).is_empty());
}

/// Real mDNS responders often put the TXT in the additional section.
#[test]
fn parses_txt_in_additional_section() {
    let mut p = Vec::new();
    p.extend_from_slice(&[0x00, 0x00]); // id
    p.extend_from_slice(&[0x84, 0x00]); // flags: response, authoritative
    p.extend_from_slice(&[0x00, 0x00]); // qdcount
    p.extend_from_slice(&[0x00, 0x01]); // ancount = 1 (PTR)
    p.extend_from_slice(&[0x00, 0x00]); // nscount
    p.extend_from_slice(&[0x00, 0x01]); // arcount = 1 (TXT)
    encode_name(&mut p, MDNS_SERVICE_TYPE);
    p.extend_from_slice(&[0x00, 0x0c, 0x00, 0x01]); // PTR/IN
    p.extend_from_slice(&[0x00, 0x00, 0x00, 0x78]); // ttl
    let mut target = Vec::new();
    encode_name(&mut target, "MyMac._unpeel-remote._tcp.local");
    p.extend_from_slice(&(target.len() as u16).to_be_bytes());
    p.extend_from_slice(&target);
    encode_name(&mut p, "MyMac._unpeel-remote._tcp.local");
    p.extend_from_slice(&[0x00, 0x10, 0x00, 0x01]); // TXT/IN
    p.extend_from_slice(&[0x00, 0x00, 0x00, 0x78]); // ttl
    let kv = b"macid=host-9";
    p.extend_from_slice(&((kv.len() + 1) as u16).to_be_bytes());
    p.push(kv.len() as u8);
    p.extend_from_slice(kv);

    let parsed = parse_mdns_response(&p);
    assert_eq!(parsed.len(), 1);
    let (instance, txt) = &parsed[0];
    assert_eq!(instance, "MyMac._unpeel-remote._tcp.local");
    assert_eq!(get(txt, "macid"), Some("host-9"));
}

#[test]
fn compressed_names_and_unsolicited_txt() {
    let mut p = Vec::new();
    p.extend_from_slice(&[0x00, 0x00, 0x84, 0x00, 0x00, 0x00, 0x00, 0x02, 0x00, 0x00, 0x00, 0x00]);
    // TXT for "a.local" (owner name at offset 12), no PTR names it.
    encode_name(&mut p, "a.local");
    p.extend_from_slice(&[0x00, 0x10, 0x00, 0x01, 0, 0, 0, 1]);
    p.extend_from_slice(&[0x00, 0x04, 3, b'k', b'=', b'v']);
    // A second TXT whose owner is a pointer to offset 12.
    p.extend_from_slice(&[0xC0, 12]);
    p.extend_from_slice(&[0x00, 0x10, 0x00, 0x01, 0, 0, 0, 1]);
    p.extend_from_slice(&[0x00, 0x02, 1, b'x']);
    let parsed = parse_mdns_response(&p);
    assert_eq!(parsed.len(), 1);
    assert_eq!(parsed[0].0, "a.local");
    assert_eq!(parsed[0].1, txt(&[("k", "v"), ("x", "")]));
    // A pointer loop is refused.
    let mut l = vec![0x00, 0x00, 0x84, 0x00, 0x00, 0x00, 0x00, 0x01, 0x00, 0x00, 0x00, 0x00];
    l.extend_from_slice(&[0xC0, 12]);
    assert!(parse_dns_records(&l).is_none());
}

#[test]
fn browse_table_merges_and_makes_candidates() {
    let mut table = Vec::new();
    assert_eq!(finish_browse(&table), Err(DiscoveryError::Timeout));
    add_instances(&mut table, vec![("H._unpeel-remote._tcp.local".into(), txt(&[("a", "1")]))]);
    add_instances(
        &mut table,
        vec![
            ("H._unpeel-remote._tcp.local".into(), txt(&[("macid", "id-1")])),
            ("plain".into(), txt(&[])),
        ],
    );
    assert_eq!(table.len(), 2);
    assert_eq!(table[0].1, txt(&[("a", "1"), ("macid", "id-1")]));
    let cs = candidates_from(&table);
    assert_eq!(cs.len(), 1);
    assert_eq!(cs[0].name, "H");
    assert_eq!(finish_browse(&table).unwrap(), cs);
    assert_eq!(DiscoveryError::Timeout.message(), "discovery timed out");
    assert_eq!(DiscoveryError::Socket("x".into()).message(), "discovery socket: x");
}

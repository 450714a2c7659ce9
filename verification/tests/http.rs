use vpn_core::http_body::{HttpReply, HttpStep};
use vpn_core::http_text::{
    build_get_api, build_sslvpn_tunnel_get, find_header, find_headers_end,
    normalize_redirect_path, parse_headers, parse_status_line, sanitize_cookie_header,
};
use vpn_core::stream::ReadOutcome;
use vpn_core::tls_http::{
    classify_tunnel_post_get, config_received_text, tunnel_opening_request, ConfigFetch,
    FetchStep, TunnelOpening, TunnelPostGetKind, TunnelStep,
};

#[test]
fn requests_for_pages() {
    assert_eq!(
        build_get_api("h:443", "/p?q", "c=1", "https://h:443/r"),
        "GET /p?q HTTP/1.1\r\nHost: h:443\r\nUser-Agent: Mozilla/5.0 SV1\r\nAccept: */*\r\n\
         Accept-Encoding: identity\r\nPragma: no-cache\r\n\
         Cache-Control: no-store, no-cache, must-revalidate\r\n\
         If-Modified-Since: Sat, 1 Jan 2000 00:00:00 GMT\r\nCookie: c=1\r\n\
         Referer: https://h:443/r\r\nConnection: keep-alive\r\n\r\n"
    );
    assert_eq!(
        build_sslvpn_tunnel_get("c=1"),
        "GET /remote/sslvpn-tunnel HTTP/1.1\r\nHost: sslvpn\r\nCookie: c=1\r\n\r\n"
    );
}

#[test]
fn cookies_without_a_value_are_dropped() {
    assert_eq!(sanitize_cookie_header("a = 1 ; SVPNNETWORKCOOKIE=; ;flag; b=x=y"), "a=1; flag; b=x=y");
    assert_eq!(sanitize_cookie_header("SVPNNETWORKCOOKIE=;"), "");
    assert_eq!(sanitize_cookie_header(" a=; "), "");
    assert_eq!(sanitize_cookie_header(" ; a=;"), "");
    assert_eq!(sanitize_cookie_header(";"), ";");
    assert_eq!(sanitize_cookie_header(" ;\t; "), ";\t;");
    assert_eq!(sanitize_cookie_header("  "), "");
    for header in ["a = 1 ; b=; c", "", ";;", " = x", "k==v; =", "SVPNCOOKIE=q;"] {
        let once = sanitize_cookie_header(header);
        assert_eq!(sanitize_cookie_header(&once), once);
    }
    assert_eq!(
        tunnel_opening_request("SVPNCOOKIE=s; SVPNNETWORKCOOKIE="),
        "GET /remote/sslvpn-tunnel HTTP/1.1\r\nHost: sslvpn\r\nCookie: SVPNCOOKIE=s\r\n\r\n"
    );
}

#[test]
fn heads_of_replies() {
    assert_eq!(find_headers_end(b"a\r\n\r\nb\r\n\r\n"), Some(5));
    assert_eq!(find_headers_end(b"a\r\n\r"), None);
    assert_eq!(parse_status_line(b"HTTP/1.1 302 Found\r\n"), Ok(302));
    assert_eq!(
        parse_status_line(b"HTTP/1.1 200"),
        Err("risposta HTTP senza fine riga".to_string())
    );
    assert_eq!(parse_status_line(b"  \r\n"), Err("status HTTP vuoto".to_string()));
    assert_eq!(parse_status_line(b"HTTP/1.1\r\n"), Err("manca codice stato HTTP".to_string()));
    assert_eq!(
        parse_status_line(b"HTTP/1.1 ok\r\n"),
        Err("codice stato HTTP non numerico".to_string())
    );
    assert_eq!(
        parse_status_line(b"HTTP/1.1 65536\r\n"),
        Err("codice stato HTTP non numerico".to_string())
    );
    assert_eq!(
        parse_status_line(b"\xff 200\r\n"),
        Err("status non UTF-8: invalid utf-8 sequence of 1 bytes from index 0".to_string())
    );
    let (status, headers) =
        parse_headers(b"HTTP/1.1 200 OK\r\nA: 1\r\nno colon\r\n a : 2:3 \r\n\r\nB: 9\r\n").unwrap();
    assert_eq!(status, 200);
    assert_eq!(find_header(&headers, "a"), Some("2:3".to_string()));
    assert_eq!(find_header(&headers, "b"), None);
    assert!(parse_headers(b"HTTP/1.1 200\r\nA: \xc3\r\n\r\n").is_err());
}

#[test]
fn redirects_become_paths() {
    assert_eq!(normalize_redirect_path(" /a?b "), Ok("/a?b".to_string()));
    assert_eq!(normalize_redirect_path("HTTPS://h:1/x/y"), Ok("/x/y".to_string()));
    assert_eq!(normalize_redirect_path("http://h/"), Ok("/".to_string()));
    assert_eq!(normalize_redirect_path("https://h"), Err("Location senza path: https://h".to_string()));
    assert_eq!(normalize_redirect_path("x/y"), Err("Location non supportata: x/y".to_string()));
}

fn failure(step: HttpStep) -> String {
    match step {
        HttpStep::Failed(m) => m,
        _ => panic!("no failure"),
    }
}

fn read_in_pieces(data: &[u8], size: usize) -> HttpReply {
    let mut r = HttpReply::new();
    let pieces: Vec<&[u8]> = data.chunks(size).collect();
    for (i, piece) in pieces.iter().enumerate() {
        match r.receive(ReadOutcome::Data(piece.to_vec())) {
            HttpStep::Read(ms) => assert_eq!(ms, 45000),
            HttpStep::Done => {
                assert_eq!(i, pieces.len() - 1);
                return r;
            }
            HttpStep::Failed(m) => panic!("{}", m),
        }
    }
    panic!("not complete");
}

#[test]
fn bodies_of_known_length_in_any_pieces() {
    let data = b"HTTP/1.1 200 OK\r\nContent-Length: 5\r\n\r\nhello";
    for size in 1..=data.len() {
        let r = read_in_pieces(data, size);
        assert_eq!(r.status, 200);
        assert_eq!(r.body, b"hello".to_vec());
    }
}

#[test]
fn bodies_of_chunks_in_any_pieces() {
    let data = b"HTTP/1.1 200 OK\r\nTransfer-Encoding: Chunked\r\n\r\n3;x=y\r\nabc\r\nA\r\n0123456789\r\n0\r\n";
    for size in 1..=data.len() {
        assert_eq!(read_in_pieces(data, size).body, b"abc0123456789".to_vec());
    }
}

#[test]
fn extensions_of_chunks_make_no_difference() {
    let body = "3\r\nabc\r\nA;\r\n0123456789\r\n1;name=\"\u{e0};\n\r\"\r\r\nx\r\n0;last\r\n\r\n";
    let data = format!("HTTP/1.1 200 OK\r\nTransfer-Encoding: chunked\r\n\r\n{}", body);
    for size in [7, 64, data.len()] {
        let mut r = HttpReply::new();
        let done = data
            .as_bytes()
            .chunks(size)
            .any(|piece| matches!(r.receive(ReadOutcome::Data(piece.to_vec())), HttpStep::Done));
        assert!(done);
        assert_eq!(r.body, b"abc0123456789x".to_vec());
    }
}

#[test]
fn bodies_without_a_length() {
    let mut r = HttpReply::new();
    let head = b"HTTP/1.1 200 OK\r\n\r\nab".to_vec();
    assert!(matches!(r.receive(ReadOutcome::Data(head)), HttpStep::Read(500)));
    assert!(matches!(r.receive(ReadOutcome::Data(b"cd".to_vec())), HttpStep::Read(500)));
    assert!(matches!(r.receive(ReadOutcome::TimedOut), HttpStep::Done));
    assert_eq!(r.body, b"abcd".to_vec());

    let mut r = HttpReply::new();
    let head = b"HTTP/1.1 200 OK\r\n\r\n".to_vec();
    assert!(matches!(r.receive(ReadOutcome::Data(head)), HttpStep::Read(500)));
    for i in 0..50 {
        let step = r.receive(ReadOutcome::Data(vec![b'x']));
        assert_eq!(matches!(step, HttpStep::Done), i == 49);
    }
    assert_eq!(r.body.len(), 50);
}

#[test]
fn replies_that_fail() {
    let start = |head: &[u8]| {
        let mut r = HttpReply::new();
        if !head.is_empty() {
            r.receive(ReadOutcome::Data(head.to_vec()));
        }
        r
    };
    let chunked = b"HTTP/1.1 200 OK\r\ntransfer-encoding: chunked\r\n\r\n";
    let mut line = chunked.to_vec();
    line.extend_from_slice(b"3");
    let mut data = chunked.to_vec();
    data.extend_from_slice(b"3\r\nab");
    let mut end = chunked.to_vec();
    end.extend_from_slice(b"3\r\nabc");
    let exact = b"HTTP/1.1 200 OK\r\nContent-Length: 5\r\n\r\nhe";
    for (head, late, eof) in [
        (&b""[..], "timeout header HTTP", "EOF durante header HTTP"),
        (&line[..], "timeout chunked", "EOF in chunked size line"),
        (&data[..], "timeout chunk data", "EOF dentro chunk"),
        (&end[..], "timeout dopo chunk", "EOF dopo chunk"),
        (&exact[..], "timeout corpo HTTP", "EOF durante lettura corpo HTTP"),
    ] {
        assert_eq!(failure(start(head).receive(ReadOutcome::TimedOut)), late);
        assert_eq!(failure(start(head).receive(ReadOutcome::Data(vec![]))), eof);
        assert_eq!(failure(start(head).receive(ReadOutcome::Failed("e".to_string()))), "e");
    }
    assert_eq!(
        failure(start(&end).receive(ReadOutcome::Data(b"xy".to_vec()))),
        "chunk framing CRLF mancante"
    );
    assert_eq!(failure(start(chunked).receive(ReadOutcome::Data(b"zz\r\n".to_vec()))), "chunk size: zz");
    assert_eq!(
        failure(start(b"").receive(ReadOutcome::Data(b"HTTP/1.1 200\r\nContent-Length: x\r\n\r\n".to_vec()))),
        "Content-Length invalido: x"
    );
    assert_eq!(
        failure(start(b"").receive(ReadOutcome::Data(vec![b'x'; 524289]))),
        "header HTTP troppo grandi"
    );
    assert_eq!(
        failure(start(chunked).receive(ReadOutcome::Data(vec![b'1'; 524289]))),
        "chunked buffer eccessivo"
    );
}

fn headers(list: &[(&str, &str)]) -> Vec<(String, String)> {
    list.iter().map(|(k, v)| (k.to_string(), v.to_string())).collect()
}

#[test]
fn the_configuration_is_fetched() {
    let mut f = ConfigFetch::new("vpn", 443, "SVPNCOOKIE=x");
    assert!(f.request().starts_with("GET /remote/fortisslvpn_xml?dual_stack=1 HTTP/1.1\r\nHost: vpn:443\r\n"));
    assert!(f.request().contains("\r\nCookie: SVPNCOOKIE=x\r\nReferer: https://vpn:443/remote/fortisslvpn\r\n"));
    let moved = headers(&[("location", "https://vpn:443/elsewhere")]);
    assert!(matches!(f.receive(302, &moved, b""), FetchStep::Request));
    assert!(f.request().starts_with("GET /elsewhere HTTP/1.1\r\n"));
    let xml = b"\n<r><assigned-addr ipv4='10.0.0.8'/></r>";
    match f.receive(200, &headers(&[]), xml) {
        FetchStep::Done(c) => {
            assert_eq!(c.assigned_ip, "10.0.0.8");
            assert_eq!(config_received_text(&c), "Configurazione VPN ricevuta (IP 10.0.0.8).");
        }
        _ => panic!("no configuration"),
    }
}

fn fetch_failure(step: FetchStep) -> String {
    match step {
        FetchStep::Failed(m) => m,
        _ => panic!("no failure"),
    }
}

#[test]
fn the_second_address_is_tried() {
    let mut f = ConfigFetch::new("vpn", 443, "c");
    assert!(matches!(f.receive(404, &headers(&[]), b"gone \xff"), FetchStep::Request));
    assert!(f.request().starts_with("GET /remote/fortisslvpn_xml HTTP/1.1\r\n"));
    assert_eq!(f.last_err, "/remote/fortisslvpn_xml?dual_stack=1 HTTP 404 — gone \u{fffd}");
    assert_eq!(
        fetch_failure(f.receive(200, &headers(&[]), b"<html>login</html>")),
        "Config VPN sulla sessione TLS dati non valida. /remote/fortisslvpn_xml — HTML portale — <html>login</html>"
    );

    let mut f = ConfigFetch::new("vpn", 443, "c");
    assert!(matches!(f.receive(200, &headers(&[]), b"<r/>"), FetchStep::Request));
    assert!(f.last_err.starts_with("/remote/fortisslvpn_xml?dual_stack=1 — No assigned IP in VPN config XML"));
    assert!(f.last_err.ends_with(" — <r/>"));
}

#[test]
fn redirects_are_bounded() {
    let mut f = ConfigFetch::new("vpn", 443, "c");
    let moved = headers(&[("location", "/again")]);
    for _ in 0..23 {
        assert!(matches!(f.receive(301, &moved, b""), FetchStep::Request));
    }
    assert_eq!(
        fetch_failure(f.receive(301, &moved, b"")),
        "Config VPN sulla sessione TLS dati non valida. "
    );
    let mut f = ConfigFetch::new("vpn", 443, "c");
    assert_eq!(fetch_failure(f.receive(307, &headers(&[]), b"")), "redirect HTTP 307 senza Location");
    let bad = headers(&[("location", "ftp://x")]);
    assert_eq!(fetch_failure(f.receive(308, &bad, b"")), "Location non supportata: ftp://x");
}

#[test]
fn what_the_gateway_sends() {
    let kind = |b: &[u8]| classify_tunnel_post_get(b);
    assert!(kind(b"") == TunnelPostGetKind::NeedMoreBytes);
    assert!(kind(b"HTT") == TunnelPostGetKind::NeedMoreBytes);
    assert!(kind(b"http/1.1") == TunnelPostGetKind::HttpResponse);
    assert!(kind(b"Hello") == TunnelPostGetKind::RawTunnelData);
    assert!(kind(b"x") == TunnelPostGetKind::RawTunnelData);
    assert!(kind(&[0x48, 6, 0x50, 0x50, 0x48, 0]) == TunnelPostGetKind::RawTunnelData);
}

#[test]
fn the_tunnel_opens_without_a_reply() {
    let mut t = TunnelOpening::new();
    assert!(matches!(t.receive(ReadOutcome::TimedOut), TunnelStep::Ready(b) if b.is_empty()));
    let frame = vec![0, 7, 0x50, 0x50, 0, 1, 9];
    let mut t = TunnelOpening::new();
    assert!(matches!(t.receive(ReadOutcome::Data(frame.clone())), TunnelStep::Ready(b) if b == frame));
    let mut t = TunnelOpening::new();
    assert!(matches!(t.receive(ReadOutcome::Data(b"HT".to_vec())), TunnelStep::Read(1500)));
    for _ in 0..9 {
        assert!(matches!(t.receive(ReadOutcome::TimedOut), TunnelStep::Read(1500)));
    }
    assert!(matches!(t.receive(ReadOutcome::TimedOut), TunnelStep::Ready(b) if b == b"HT"));
    let mut t = TunnelOpening::new();
    t.receive(ReadOutcome::Data(b"HT".to_vec()));
    assert!(matches!(t.receive(ReadOutcome::Data(vec![])), TunnelStep::Ready(b) if b == b"HT"));
}

#[test]
fn the_tunnel_opens_after_a_reply_in_any_pieces() {
    let data = b"HTTP/1.1 200 OK\r\nX: y\r\n\r\n\x00\x07PP";
    for cut in 1..data.len() {
        let mut t = TunnelOpening::new();
        let (mut ready, rest) = match t.receive(ReadOutcome::Data(data[..cut].to_vec())) {
            TunnelStep::Ready(b) => (b, Some(data[cut..].to_vec())),
            TunnelStep::Read(_) => match t.receive(ReadOutcome::Data(data[cut..].to_vec())) {
                TunnelStep::Ready(b) => (b, None),
                _ => panic!("not open"),
            },
            TunnelStep::Failed(m) => panic!("{}", m),
        };
        if let Some(later) = rest {
            ready.extend(later);
        }
        assert_eq!(ready, b"\x00\x07PP".to_vec());
    }
}

fn tunnel_failure(pieces: Vec<ReadOutcome>) -> String {
    let mut t = TunnelOpening::new();
    for p in pieces {
        if let TunnelStep::Failed(m) = t.receive(p) {
            return m;
        }
    }
    panic!("no failure")
}

#[test]
fn the_tunnel_is_refused() {
    let reply = b"HTTP/1.1 403 Forbidden \r\n\r\nno".to_vec();
    assert_eq!(
        tunnel_failure(vec![ReadOutcome::Data(reply)]),
        "Tunnel HTTP non OK: HTTP/1.1 403 Forbidden — HTTP/1.1 403 Forbidden \r\n\r\nno"
    );
    let head = || ReadOutcome::Data(b"HTTP/1.1".to_vec());
    assert_eq!(
        tunnel_failure(vec![head(), ReadOutcome::TimedOut]),
        "Tunnel: timeout header HTTP dopo GET sslvpn-tunnel (45 s)."
    );
    assert_eq!(
        tunnel_failure(vec![head(), ReadOutcome::Data(vec![])]),
        "Tunnel: EOF prima della fine degli header HTTP"
    );
    assert_eq!(
        tunnel_failure(vec![head(), ReadOutcome::Data(vec![b'x'; 524288])]),
        "Tunnel: header HTTP troppo grandi"
    );
    assert_eq!(
        tunnel_failure(vec![ReadOutcome::Data(vec![])]),
        "Tunnel: connessione chiusa senza risposta"
    );
    assert_eq!(
        tunnel_failure(vec![ReadOutcome::Data(vec![b'x'; 524289])]),
        "Tunnel: risposta gateway troppo grande"
    );
    assert_eq!(tunnel_failure(vec![ReadOutcome::Failed("e".to_string())]), "e");
}

use codex_mcp::descriptor::{ServerDescriptor, Transport};
use codex_mcp::node::Node;
use codex_mcp::normalize::{
    descriptor_from_value, descriptor_to_entry, descriptor_to_value, entry_to_descriptor, is_blank,
};
use codex_mcp::reader::read_document;
use codex_mcp::writer::{managed_table, write_document};

fn s(x: &str) -> Node {
    Node::Str(x.to_string())
}

fn table(entries: Vec<(&str, Node)>) -> Node {
    Node::Table(entries.into_iter().map(|(k, v)| (k.to_string(), v)).collect())
}

fn fields(n: Node) -> Vec<(String, Node)> {
    match n {
        Node::Table(t) => t,
        _ => panic!("not a table"),
    }
}

fn keys(n: &Node) -> Vec<String> {
    match n {
        Node::Table(t) => t.iter().map(|(k, _)| k.clone()).collect(),
        _ => panic!("not a table"),
    }
}

fn get<'a>(r: &'a [(String, ServerDescriptor)], id: &str) -> Option<&'a ServerDescriptor> {
    r.iter().find(|(k, _)| k == id).map(|(_, d)| d)
}

fn stdio_doc(location: &str, id: &str, command: &str) -> (String, Node) {
    let entry = table(vec![("type", s("stdio")), ("command", s(command))]);
    if location == "mcp" {
        ("mcp".to_string(), table(vec![("servers", table(vec![(id, entry)]))]))
    } else {
        (location.to_string(), table(vec![(id, entry)]))
    }
}

#[test]
fn empty_document_reads_empty() {
    assert!(read_document(&Vec::new()).is_empty());
}

#[test]
fn blank_text_is_blank() {
    assert!(is_blank(""));
    assert!(is_blank("  \n\t "));
    assert!(!is_blank(" a "));
}

#[test]
fn legacy_only_entry_is_read() {
    let doc = vec![stdio_doc("mcp", "foo", "node")];
    let r = read_document(&doc);
    assert_eq!(r.len(), 1);
    let d = get(&r, "foo").unwrap();
    assert_eq!(d.transport, Transport::Stdio);
    assert_eq!(d.command.as_deref(), Some("node"));
    assert!(d.args.is_empty());
}

#[test]
fn primary_entry_wins_over_legacy() {
    let doc = vec![stdio_doc("mcp_servers", "a", "x"), stdio_doc("mcp", "a", "y")];
    let r = read_document(&doc);
    assert_eq!(r.len(), 1);
    assert_eq!(get(&r, "a").unwrap().command.as_deref(), Some("x"));
}

#[test]
fn legacy_entry_used_when_primary_entry_unknown() {
    let primary = table(vec![("a", table(vec![("type", s("grpc"))]))]);
    let doc = vec![("mcp_servers".to_string(), primary), stdio_doc("mcp", "a", "y")];
    let r = read_document(&doc);
    assert_eq!(get(&r, "a").unwrap().command.as_deref(), Some("y"));
}

#[test]
fn missing_type_reads_as_stdio() {
    let d = entry_to_descriptor(&table(vec![("command", s("run"))])).unwrap();
    assert_eq!(d.transport, Transport::Stdio);
    assert_eq!(d.command.as_deref(), Some("run"));
}

#[test]
fn unknown_type_is_dropped() {
    let primary = table(vec![
        ("bad", table(vec![("type", s("carrier-pigeon"))])),
        ("good", table(vec![("type", s("sse")), ("url", s("http://e"))])),
    ]);
    let r = read_document(&vec![("mcp_servers".to_string(), primary)]);
    assert_eq!(r.len(), 1);
    assert!(get(&r, "bad").is_none());
    assert_eq!(get(&r, "good").unwrap().transport, Transport::Sse);
}

#[test]
fn non_table_entry_is_dropped() {
    assert!(entry_to_descriptor(&s("stdio")).is_none());
}

#[test]
fn mistyped_fields_are_filtered() {
    let entry = table(vec![
        ("command", Node::Other),
        ("args", Node::Arr(vec![s("a"), Node::Other, s("b")])),
        ("env", table(vec![("K", s("v")), ("N", Node::Other)])),
        ("cwd", s("   ")),
    ]);
    let d = entry_to_descriptor(&entry).unwrap();
    assert_eq!(d.command, None);
    assert_eq!(d.args, vec!["a".to_string(), "b".to_string()]);
    assert_eq!(d.env, vec![("K".to_string(), "v".to_string())]);
    assert_eq!(d.cwd, None);
}

#[test]
fn stored_headers_fall_back_to_headers_key() {
    let e1 = table(vec![("type", s("http")), ("headers", table(vec![("A", s("1"))]))]);
    let d1 = entry_to_descriptor(&e1).unwrap();
    assert_eq!(d1.headers, vec![("A".to_string(), "1".to_string())]);
    let e2 = table(vec![
        ("type", s("http")),
        ("http_headers", table(vec![("B", s("2"))])),
        ("headers", table(vec![("A", s("1"))])),
    ]);
    let d2 = entry_to_descriptor(&e2).unwrap();
    assert_eq!(d2.headers, vec![("B".to_string(), "2".to_string())]);
}

#[test]
fn empty_fields_are_not_written() {
    let value = table(vec![
        ("type", s("stdio")),
        ("command", s("node")),
        ("args", Node::Arr(vec![])),
        ("env", table(vec![])),
    ]);
    let d = descriptor_from_value(&value).ok().unwrap();
    let entry = descriptor_to_entry(&d);
    assert_eq!(keys(&entry), vec!["type".to_string(), "command".to_string()]);
}

#[test]
fn missing_command_and_url_are_written_empty() {
    let d = descriptor_from_value(&table(vec![])).ok().unwrap();
    let entry = fields(descriptor_to_entry(&d));
    assert!(matches!(&entry[1], (k, Node::Str(v)) if k == "command" && v.is_empty()));
    let h = descriptor_from_value(&table(vec![("type", s("http"))])).ok().unwrap();
    let entry = fields(descriptor_to_entry(&h));
    assert!(matches!(&entry[0], (k, Node::Str(v)) if k == "type" && v == "http"));
    assert!(matches!(&entry[1], (k, Node::Str(v)) if k == "url" && v.is_empty()));
}

#[test]
fn unknown_type_is_rejected_on_write() {
    let e = descriptor_from_value(&table(vec![("type", s("ws"))])).err().unwrap();
    assert_eq!(e.name, "ws");
    let servers = vec![
        ("bad".to_string(), table(vec![("type", s("ws"))])),
        ("ok".to_string(), table(vec![("command", s("run"))])),
    ];
    let m = managed_table(&servers);
    assert_eq!(m.rejected, vec!["bad".to_string()]);
    assert_eq!(m.entries.len(), 1);
    assert_eq!(m.entries[0].0, "ok");
}

#[test]
fn headers_survive_write_and_read() {
    let servers = vec![(
        "h".to_string(),
        table(vec![
            ("type", s("http")),
            ("url", s("http://x")),
            ("headers", table(vec![("A", s("1"))])),
        ]),
    )];
    let (doc, rejected) = write_document(Vec::new(), &servers);
    assert!(rejected.is_empty());
    let r = read_document(&doc);
    let d = get(&r, "h").unwrap();
    assert_eq!(d.transport, Transport::Http);
    assert_eq!(d.url.as_deref(), Some("http://x"));
    assert_eq!(d.headers, vec![("A".to_string(), "1".to_string())]);
}

#[test]
fn stdio_round_trip() {
    let servers = vec![(
        "s".to_string(),
        table(vec![
            ("type", s("stdio")),
            ("command", s("node")),
            ("args", Node::Arr(vec![s("server.js")])),
            ("env", table(vec![("KEY", s("value"))])),
            ("cwd", s("/tmp")),
        ]),
    )];
    let (doc, _) = write_document(Vec::new(), &servers);
    let r = read_document(&doc);
    let d = get(&r, "s").unwrap();
    assert_eq!(d.command.as_deref(), Some("node"));
    assert_eq!(d.args, vec!["server.js".to_string()]);
    assert_eq!(d.env, vec![("KEY".to_string(), "value".to_string())]);
    assert_eq!(d.cwd.as_deref(), Some("/tmp"));
}

#[test]
fn empty_write_keeps_other_settings() {
    let doc = vec![
        ("other_setting".to_string(), Node::Other),
        stdio_doc("mcp_servers", "a", "x"),
    ];
    let (out, _) = write_document(doc, &Vec::new());
    assert_eq!(out.len(), 1);
    assert_eq!(out[0].0, "other_setting");
    assert!(matches!(out[0].1, Node::Other));
}

#[test]
fn write_removes_legacy_servers_and_keeps_siblings() {
    let mcp = table(vec![
        ("servers", table(vec![("old", table(vec![("command", s("y"))]))])),
        ("keep", s("me")),
    ]);
    let doc = vec![("mcp".to_string(), mcp), ("model".to_string(), s("o3"))];
    let servers = vec![("n".to_string(), table(vec![("command", s("z"))]))];
    let (out, _) = write_document(doc, &servers);
    assert_eq!(out[0].0, "mcp");
    assert_eq!(keys(&out[0].1), vec!["keep".to_string()]);
    assert!(matches!(&out[1], (k, Node::Str(v)) if k == "model" && v == "o3"));
    assert_eq!(out[2].0, "mcp_servers");
    let r = read_document(&out);
    assert_eq!(r.len(), 1);
    assert!(get(&r, "old").is_none());
}

#[test]
fn descriptor_value_omits_empty_fields() {
    let d = ServerDescriptor {
        transport: Transport::Sse,
        command: None,
        args: Vec::new(),
        env: Vec::new(),
        cwd: None,
        url: Some("http://e".to_string()),
        headers: Vec::new(),
    };
    let v = descriptor_to_value(&d);
    assert_eq!(keys(&v), vec!["type".to_string(), "url".to_string()]);
    let back = descriptor_from_value(&v).ok().unwrap();
    assert_eq!(back.transport, Transport::Sse);
    assert_eq!(back.url.as_deref(), Some("http://e"));
}

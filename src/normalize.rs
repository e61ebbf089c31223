//! Conversion between one raw document entry and a server descriptor.
//! Reading is tolerant (an unknown type yields no descriptor); writing
//! rejects an unknown type.
use vstd::prelude::*;
use crate::descriptor::{opt_desc_view, parse_transport, transport_name, transport_str, transport_of, DescriptorView, ServerDescriptor, Transport};
use crate::node::{array_field, keys_of, nodes_of_strings, push_entry, table_of_pairs, get_str, get_string_pairs, get_strings, get_table, lookup, pairs_field, pairs_view, str_field, str_pairs, string_pairs_of, Node};

verus! {

/// What `str::trim` leaves of a string.
pub uninterp spec fn trimmed(s: Seq<char>) -> Seq<char>;

/// Relies on str::trim: the string without leading and trailing whitespace.
#[verifier::external_body]
fn trim(s: &str) -> (r: &str)
    ensures
        r@ == trimmed(s@),
        s@.len() == 0 ==> r@.len() == 0,
{
    s.trim()
}

/// A string holding only whitespace.
pub open spec fn blank(s: Seq<char>) -> bool {
    trimmed(s).len() == 0
}

/// Whether a string holds only whitespace.
pub fn is_blank(s: &str) -> (r: bool)
    ensures
        r == blank(s@),
        s@.len() == 0 ==> r,
{
    trim(s).is_empty()
}

/// An optional string, dropped when blank.
pub open spec fn nonblank(o: Option<Seq<char>>) -> Option<Seq<char>> {
    match o {
        Some(s) => if blank(s) {
            None
        } else {
            Some(s)
        },
        None => None,
    }
}

/// The type an entry names, `stdio` when it names none.
pub open spec fn type_field(t: Seq<(String, Node)>) -> Seq<char> {
    match str_field(t, "type"@) {
        Some(s) => s,
        None => "stdio"@,
    }
}

/// The descriptor that the fields of an entry give, with the headers already chosen.
pub open spec fn fields_descriptor(
    t: Seq<(String, Node)>,
    headers: Seq<(Seq<char>, Seq<char>)>,
) -> Option<DescriptorView> {
    match transport_of(type_field(t)) {
        Some(Transport::Stdio) => Some(
            DescriptorView {
                transport: Transport::Stdio,
                command: str_field(t, "command"@),
                args: array_field(t, "args"@),
                env: pairs_field(t, "env"@),
                cwd: nonblank(str_field(t, "cwd"@)),
                url: None,
                headers: Seq::empty(),
            },
        ),
        Some(tr) => Some(
            DescriptorView {
                transport: tr,
                command: None,
                args: Seq::empty(),
                env: Seq::empty(),
                cwd: None,
                url: str_field(t, "url"@),
                headers: headers,
            },
        ),
        None => None,
    }
}

/// The headers of a stored entry: `http_headers` when it is a table, else `headers`.
pub open spec fn entry_headers(t: Seq<(String, Node)>) -> Seq<(Seq<char>, Seq<char>)> {
    match lookup(t, "http_headers"@) {
        Some(Node::Table(u)) => str_pairs(u@),
        _ => pairs_field(t, "headers"@),
    }
}

/// The descriptor a stored entry reads as; none when it is not a table or its
/// type is unknown.
pub open spec fn entry_descriptor(entry: Node) -> Option<DescriptorView> {
    match entry {
        Node::Table(t) => fields_descriptor(t@, entry_headers(t@)),
        _ => None,
    }
}

/// The fields of a loosely-typed descriptor value; a value that is not a
/// table has none.
pub open spec fn table_of(n: Node) -> Seq<(String, Node)> {
    match n {
        Node::Table(t) => t@,
        _ => Seq::empty(),
    }
}

/// The descriptor a loosely-typed descriptor value stands for; none when its
/// type is unknown.
pub open spec fn value_descriptor(value: Node) -> Option<DescriptorView> {
    fields_descriptor(table_of(value), pairs_field(table_of(value), "headers"@))
}

fn descriptor_from_fields(t: &Vec<(String, Node)>, headers: Vec<(String, String)>) -> (r: Option<
    ServerDescriptor,
>)
    ensures
        opt_desc_view(r) == fields_descriptor(t@, pairs_view(headers@)),
{
    let stdio = "stdio".to_owned();
    let typ = match get_str(t, "type") {
        Some(s) => s,
        None => &stdio,
    };
    assert(typ@ == type_field(t@));
    match parse_transport(typ) {
        Some(Transport::Stdio) => {
            let command = match get_str(t, "command") {
                Some(c) => Some(c.clone()),
                None => None,
            };
            let cwd = match get_str(t, "cwd") {
                Some(c) => if is_blank(c.as_str()) {
                    None
                } else {
                    Some(c.clone())
                },
                None => None,
            };
            let d = ServerDescriptor {
                transport: Transport::Stdio,
                command,
                args: get_strings(t, "args"),
                env: get_string_pairs(t, "env"),
                cwd,
                url: None,
                headers: Vec::new(),
            };
            assert(d@.headers =~= Seq::empty());
            Some(d)
        },
        Some(tr) => {
            let url = match get_str(t, "url") {
                Some(u) => Some(u.clone()),
                None => None,
            };
            let d = ServerDescriptor {
                transport: tr,
                command: None,
                args: Vec::new(),
                env: Vec::new(),
                cwd: None,
                url,
                headers,
            };
            assert(d@.args =~= Seq::empty());
            assert(d@.env =~= Seq::empty());
            Some(d)
        },
        None => None,
    }
}

/// Reads one stored entry. An entry that is not a table, or whose type is
/// unknown, gives no descriptor.
pub fn entry_to_descriptor(entry: &Node) -> (r: Option<ServerDescriptor>)
    ensures
        opt_desc_view(r) == entry_descriptor(*entry),
{
    match entry {
        Node::Table(t) => {
            let headers = match get_table(t, "http_headers") {
                Some(u) => string_pairs_of(u),
                None => get_string_pairs(t, "headers"),
            };
            descriptor_from_fields(t, headers)
        },
        _ => None,
    }
}

} // verus!

verus! {

/// A descriptor value whose type is not one of the known transports.
pub struct UnsupportedType {
    /// The type it named.
    pub name: String,
}

/// Reads a loosely-typed descriptor value for writing. Unlike reading a stored
/// entry, an unknown type is an error, and headers come only from `headers`.
pub fn descriptor_from_value(value: &Node) -> (r: Result<ServerDescriptor, UnsupportedType>)
    ensures
        r is Ok <==> value_descriptor(*value) is Some,
        r matches Ok(d) ==> value_descriptor(*value) == Some(d@),
        r matches Err(e) ==> e.name@ == type_field(table_of(*value)),
{
    let empty: Vec<(String, Node)> = Vec::new();
    let t = match value {
        Node::Table(t) => t,
        _ => &empty,
    };
    assert(t@ == table_of(*value));
    let headers = get_string_pairs(t, "headers");
    match descriptor_from_fields(t, headers) {
        Some(d) => Ok(d),
        None => {
            let name = match get_str(t, "type") {
                Some(s) => s.clone(),
                None => "stdio".to_owned(),
            };
            Err(UnsupportedType { name })
        },
    }
}

/// An optional string, the empty string when absent.
pub open spec fn or_empty(o: Option<Seq<char>>) -> Seq<char> {
    match o {
        Some(s) => s,
        None => Seq::empty(),
    }
}

/// What a descriptor reads back as once stored: a missing command or url is
/// stored as the empty string, a blank working directory is left out, and
/// fields that do not belong to the transport are dropped.
pub open spec fn written(d: DescriptorView) -> DescriptorView {
    match d.transport {
        Transport::Stdio => DescriptorView {
            transport: Transport::Stdio,
            command: Some(or_empty(d.command)),
            args: d.args,
            env: d.env,
            cwd: nonblank(d.cwd),
            url: None,
            headers: Seq::empty(),
        },
        _ => DescriptorView {
            transport: d.transport,
            command: None,
            args: Seq::empty(),
            env: Seq::empty(),
            cwd: None,
            url: Some(or_empty(d.url)),
            headers: d.headers,
        },
    }
}

/// The keys of a stored entry, in order: fields that are empty are omitted.
pub open spec fn entry_keys(d: DescriptorView) -> Seq<Seq<char>> {
    match d.transport {
        Transport::Stdio => {
            let a = seq!["type"@, "command"@];
            let b = if d.args.len() > 0 {
                a.push("args"@)
            } else {
                a
            };
            let c = if nonblank(d.cwd) is Some {
                b.push("cwd"@)
            } else {
                b
            };
            if d.env.len() > 0 {
                c.push("env"@)
            } else {
                c
            }
        },
        _ => {
            let a = seq!["type"@, "url"@];
            if d.headers.len() > 0 {
                a.push("http_headers"@)
            } else {
                a
            }
        },
    }
}

/// The field and transport names: their lengths and first characters, which
/// tell each apart from the others.
proof fn lemma_names()
    ensures
        "type"@.len() == 4,
        "type"@[0] == 't',
        "command"@.len() == 7,
        "command"@[0] == 'c',
        "args"@.len() == 4,
        "args"@[0] == 'a',
        "cwd"@.len() == 3,
        "cwd"@[0] == 'c',
        "env"@.len() == 3,
        "env"@[0] == 'e',
        "url"@.len() == 3,
        "url"@[0] == 'u',
        "http_headers"@.len() == 12,
        "http_headers"@[0] == 'h',
        "headers"@.len() == 7,
        "headers"@[0] == 'h',
        "stdio"@.len() == 5,
        "stdio"@[0] == 's',
        "http"@.len() == 4,
        "http"@[0] == 'h',
        "sse"@.len() == 3,
        "sse"@[0] == 's',
{
    reveal_strlit("type");
    reveal_strlit("command");
    reveal_strlit("args");
    reveal_strlit("cwd");
    reveal_strlit("env");
    reveal_strlit("url");
    reveal_strlit("http_headers");
    reveal_strlit("headers");
    reveal_strlit("stdio");
    reveal_strlit("http");
    reveal_strlit("sse");
}

/// Builds the stored entry for a descriptor: a table that reads back as
/// `written(d@)` and holds exactly the keys `entry_keys(d@)`.
pub fn descriptor_to_entry(d: &ServerDescriptor) -> (r: Node)
    ensures
        r is Table,
        keys_of(table_of(r)) == entry_keys(d@),
        entry_descriptor(r) == Some(written(d@)),
{
    proof {
        lemma_names();
    }
    let mut t: Vec<(String, Node)> = Vec::new();
    assert(keys_of(t@) =~= Seq::empty());
    push_entry(&mut t, "type", Node::Str(transport_str(d.transport)));
    match d.transport {
        Transport::Stdio => {
            let command = match &d.command {
                Some(c) => c.clone(),
                None => String::new(),
            };
            push_entry(&mut t, "command", Node::Str(command));
            if d.args.len() > 0 {
                push_entry(&mut t, "args", Node::Arr(nodes_of_strings(&d.args)));
            }
            match &d.cwd {
                Some(c) => {
                    if !is_blank(c.as_str()) {
                        push_entry(&mut t, "cwd", Node::Str(c.clone()));
                    }
                },
                None => {},
            }
            if d.env.len() > 0 {
                push_entry(&mut t, "env", Node::Table(table_of_pairs(&d.env)));
            }
            assert(keys_of(t@) =~= entry_keys(d@));
            assert(type_field(t@) == "stdio"@);
            assert(str_field(t@, "command"@) == Some(or_empty(d@.command)));
            assert(array_field(t@, "args"@) =~= d@.args);
            assert(pairs_field(t@, "env"@) =~= d@.env);
            assert(str_field(t@, "cwd"@) == nonblank(d@.cwd));
            assert(nonblank(str_field(t@, "cwd"@)) == nonblank(d@.cwd));
        },
        _ => {
            let url = match &d.url {
                Some(u) => u.clone(),
                None => String::new(),
            };
            push_entry(&mut t, "url", Node::Str(url));
            if d.headers.len() > 0 {
                push_entry(&mut t, "http_headers", Node::Table(table_of_pairs(&d.headers)));
            }
            assert(keys_of(t@) =~= entry_keys(d@));
            assert(type_field(t@) == transport_name(d.transport));
            assert(transport_of(type_field(t@)) == Some(d.transport));
            assert(str_field(t@, "url"@) == Some(or_empty(d@.url)));
            assert(entry_headers(t@) =~= d@.headers);
        },
    }
    let r = Node::Table(t);
    assert(entry_descriptor(r) =~= Some(written(d@)));
    r
}

} // verus!

verus! {

/// What a descriptor value built by `descriptor_to_value` reads as: the fields
/// of the transport, a blank working directory left out.
pub open spec fn shown(d: DescriptorView) -> DescriptorView {
    match d.transport {
        Transport::Stdio => DescriptorView {
            transport: Transport::Stdio,
            command: d.command,
            args: d.args,
            env: d.env,
            cwd: nonblank(d.cwd),
            url: None,
            headers: Seq::empty(),
        },
        _ => DescriptorView {
            transport: d.transport,
            command: None,
            args: Seq::empty(),
            env: Seq::empty(),
            cwd: None,
            url: d.url,
            headers: d.headers,
        },
    }
}

/// The keys of a descriptor value, in order: absent and empty fields are omitted.
pub open spec fn value_keys(d: DescriptorView) -> Seq<Seq<char>> {
    match d.transport {
        Transport::Stdio => {
            let a = seq!["type"@];
            let b = if d.command is Some {
                a.push("command"@)
            } else {
                a
            };
            let c = if d.args.len() > 0 {
                b.push("args"@)
            } else {
                b
            };
            let e = if d.env.len() > 0 {
                c.push("env"@)
            } else {
                c
            };
            if d.cwd is Some {
                e.push("cwd"@)
            } else {
                e
            }
        },
        _ => {
            let a = seq!["type"@];
            let b = if d.url is Some {
                a.push("url"@)
            } else {
                a
            };
            if d.headers.len() > 0 {
                b.push("headers"@)
            } else {
                b
            }
        },
    }
}

/// Builds the loosely-typed descriptor value handed to callers: a table with
/// exactly the keys `value_keys(d@)`, which reads back as `shown(d@)`.
pub fn descriptor_to_value(d: &ServerDescriptor) -> (r: Node)
    ensures
        r is Table,
        keys_of(table_of(r)) == value_keys(d@),
        value_descriptor(r) == Some(shown(d@)),
{
    proof {
        lemma_names();
    }
    let mut t: Vec<(String, Node)> = Vec::new();
    assert(keys_of(t@) =~= Seq::empty());
    push_entry(&mut t, "type", Node::Str(transport_str(d.transport)));
    match d.transport {
        Transport::Stdio => {
            match &d.command {
                Some(c) => push_entry(&mut t, "command", Node::Str(c.clone())),
                None => {},
            }
            if d.args.len() > 0 {
                push_entry(&mut t, "args", Node::Arr(nodes_of_strings(&d.args)));
            }
            if d.env.len() > 0 {
                push_entry(&mut t, "env", Node::Table(table_of_pairs(&d.env)));
            }
            match &d.cwd {
                Some(c) => push_entry(&mut t, "cwd", Node::Str(c.clone())),
                None => {},
            }
            assert(keys_of(t@) =~= value_keys(d@));
            assert(type_field(t@) == "stdio"@);
            assert(str_field(t@, "command"@) == d@.command);
            assert(array_field(t@, "args"@) =~= d@.args);
            assert(pairs_field(t@, "env"@) =~= d@.env);
            assert(str_field(t@, "cwd"@) == d@.cwd);
        },
        _ => {
            match &d.url {
                Some(u) => push_entry(&mut t, "url", Node::Str(u.clone())),
                None => {},
            }
            if d.headers.len() > 0 {
                push_entry(&mut t, "headers", Node::Table(table_of_pairs(&d.headers)));
            }
            assert(keys_of(t@) =~= value_keys(d@));
            assert(type_field(t@) == transport_name(d.transport));
            assert(str_field(t@, "url"@) == d@.url);
            assert(pairs_field(t@, "headers"@) =~= d@.headers);
        },
    }
    let r = Node::Table(t);
    assert(value_descriptor(r) =~= Some(shown(d@)));
    r
}

} // verus!

//! The normalized server descriptor and its mathematical view.
use vstd::prelude::*;
use crate::node::{pairs_view, strs_view};

verus! {

/// How a server is reached.
#[derive(Clone, Copy, Debug, PartialEq, Eq, Structural)]
pub enum Transport {
    Stdio,
    Http,
    Sse,
}

/// One server entry. Fields that do not belong to the transport stay empty.
pub struct ServerDescriptor {
    pub transport: Transport,
    /// Stdio: the program to run.
    pub command: Option<String>,
    /// Stdio: its arguments; empty means "not set".
    pub args: Vec<String>,
    /// Stdio: environment variables; empty means "not set".
    pub env: Vec<(String, String)>,
    /// Stdio: the working directory, never blank.
    pub cwd: Option<String>,
    /// Http / Sse: the endpoint.
    pub url: Option<String>,
    /// Http / Sse: request headers; empty means "not set".
    pub headers: Vec<(String, String)>,
}

/// A descriptor as plain mathematical values.
pub struct DescriptorView {
    pub transport: Transport,
    pub command: Option<Seq<char>>,
    pub args: Seq<Seq<char>>,
    pub env: Seq<(Seq<char>, Seq<char>)>,
    pub cwd: Option<Seq<char>>,
    pub url: Option<Seq<char>>,
    pub headers: Seq<(Seq<char>, Seq<char>)>,
}

/// The view of an optional string.
pub open spec fn opt_view(o: Option<String>) -> Option<Seq<char>> {
    match o {
        Some(s) => Some(s@),
        None => None,
    }
}

impl View for ServerDescriptor {
    type V = DescriptorView;

    open spec fn view(&self) -> DescriptorView {
        DescriptorView {
            transport: self.transport,
            command: opt_view(self.command),
            args: strs_view(self.args@),
            env: pairs_view(self.env@),
            cwd: opt_view(self.cwd),
            url: opt_view(self.url),
            headers: pairs_view(self.headers@),
        }
    }
}

/// The view of an optional descriptor.
pub open spec fn opt_desc_view(o: Option<ServerDescriptor>) -> Option<DescriptorView> {
    match o {
        Some(d) => Some(d@),
        None => None,
    }
}

/// The name of a transport as written in a document.
pub open spec fn transport_name(t: Transport) -> Seq<char> {
    match t {
        Transport::Stdio => "stdio"@,
        Transport::Http => "http"@,
        Transport::Sse => "sse"@,
    }
}

/// The transport a name stands for, if any.
pub open spec fn transport_of(name: Seq<char>) -> Option<Transport> {
    if name == "stdio"@ {
        Some(Transport::Stdio)
    } else if name == "http"@ {
        Some(Transport::Http)
    } else if name == "sse"@ {
        Some(Transport::Sse)
    } else {
        None
    }
}

/// Recognizes a transport name.
pub fn parse_transport(name: &String) -> (r: Option<Transport>)
    ensures
        r == transport_of(name@),
{
    let stdio = "stdio".to_owned();
    let http = "http".to_owned();
    let sse = "sse".to_owned();
    if *name == stdio {
        Some(Transport::Stdio)
    } else if *name == http {
        Some(Transport::Http)
    } else if *name == sse {
        Some(Transport::Sse)
    } else {
        None
    }
}

/// The name of a transport.
pub fn transport_str(t: Transport) -> (r: String)
    ensures
        r@ == transport_name(t),
{
    match t {
        Transport::Stdio => "stdio".to_owned(),
        Transport::Http => "http".to_owned(),
        Transport::Sse => "sse".to_owned(),
    }
}

} // verus!

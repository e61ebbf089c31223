//! General properties of reading and writing descriptor maps.
use vstd::prelude::*;
use crate::descriptor::{DescriptorView, Transport};
use crate::node::{lookup, str_field, Node};
use crate::normalize::{entry_descriptor, value_descriptor, table_of, written};
use crate::reader::{add_servers, document_servers, legacy_entries, primary_entries};
use crate::writer::{written_servers, written_step};

verus! {

/// An empty document holds no descriptors.
pub proof fn lemma_empty_document()
    ensures
        document_servers(Seq::empty()) == Map::<Seq<char>, DescriptorView>::empty(),
{
    let e = Seq::<(String, Node)>::empty();
    assert(lookup(e, "mcp_servers"@) is None);
    assert(lookup(e, "mcp"@) is None);
    assert(primary_entries(e) =~= e);
    assert(legacy_entries(e) =~= e);
    assert(add_servers(Map::empty(), e) == Map::<Seq<char>, DescriptorView>::empty());
}

/// A stored entry, or a descriptor value, without a string `type` field is a
/// stdio descriptor.
pub proof fn lemma_type_defaults_to_stdio(entry: Node)
    requires
        entry is Table,
        str_field(table_of(entry), "type"@) is None,
    ensures
        entry_descriptor(entry) matches Some(d) && d.transport == Transport::Stdio,
        value_descriptor(entry) matches Some(d) && d.transport == Transport::Stdio,
{
}

proof fn lemma_add_keeps(acc: Map<Seq<char>, DescriptorView>, entries: Seq<(String, Node)>, k: Seq<char>)
    requires
        acc.contains_key(k),
    ensures
        add_servers(acc, entries).contains_key(k),
        add_servers(acc, entries)[k] == acc[k],
    decreases entries.len(),
{
    if entries.len() > 0 {
        let next = if !acc.contains_key(entries[0].0@) && entry_descriptor(entries[0].1) is Some {
            acc.insert(entries[0].0@, entry_descriptor(entries[0].1)->0)
        } else {
            acc
        };
        lemma_add_keeps(next, entries.drop_first(), k);
    }
}

proof fn lemma_add_first(
    acc: Map<Seq<char>, DescriptorView>,
    entries: Seq<(String, Node)>,
    k: Seq<char>,
    n: Node,
)
    requires
        !acc.contains_key(k),
        lookup(entries, k) == Some(n),
        entry_descriptor(n) is Some,
    ensures
        add_servers(acc, entries).contains_key(k),
        add_servers(acc, entries)[k] == entry_descriptor(n)->0,
    decreases entries.len(),
{
    let next = if !acc.contains_key(entries[0].0@) && entry_descriptor(entries[0].1) is Some {
        acc.insert(entries[0].0@, entry_descriptor(entries[0].1)->0)
    } else {
        acc
    };
    if entries[0].0@ == k {
        lemma_add_keeps(next, entries.drop_first(), k);
    } else {
        lemma_add_first(next, entries.drop_first(), k, n);
    }
}

/// When the primary location has a readable entry for an id, the map read
/// from the document holds exactly that entry's descriptor for the id,
/// whatever the legacy location holds.
pub proof fn lemma_primary_wins(root: Seq<(String, Node)>, id: Seq<char>, n: Node)
    requires
        lookup(primary_entries(root), id) == Some(n),
        entry_descriptor(n) is Some,
    ensures
        document_servers(root).contains_key(id),
        document_servers(root)[id] == entry_descriptor(n)->0,
{
    lemma_add_first(Map::empty(), primary_entries(root), id, n);
    lemma_add_keeps(add_servers(Map::empty(), primary_entries(root)), legacy_entries(root), id);
}

proof fn lemma_add_source(acc: Map<Seq<char>, DescriptorView>, entries: Seq<(String, Node)>, k: Seq<char>)
    requires
        !acc.contains_key(k),
        forall|i: int|
            0 <= i < entries.len() && #[trigger] entries[i].0@ == k ==> entry_descriptor(
                entries[i].1,
            ) is None,
    ensures
        !add_servers(acc, entries).contains_key(k),
    decreases entries.len(),
{
    if entries.len() > 0 {
        let next = if !acc.contains_key(entries[0].0@) && entry_descriptor(entries[0].1) is Some {
            acc.insert(entries[0].0@, entry_descriptor(entries[0].1)->0)
        } else {
            acc
        };
        assert forall|i: int|
            0 <= i < entries.drop_first().len() && #[trigger] entries.drop_first()[i].0@ == k
                implies entry_descriptor(entries.drop_first()[i].1) is None by {
            assert(entries.drop_first()[i] == entries[i + 1]);
        }
        assert(entries[0].0@ == k ==> entry_descriptor(entries[0].1) is None);
        lemma_add_source(next, entries.drop_first(), k);
    }
}

/// An id whose entries, in both locations, all have an unknown type (or are
/// not tables) is absent from the map read from the document.
pub proof fn lemma_unknown_dropped(root: Seq<(String, Node)>, id: Seq<char>)
    requires
        forall|i: int|
            0 <= i < primary_entries(root).len() && #[trigger] primary_entries(root)[i].0@ == id
                ==> entry_descriptor(primary_entries(root)[i].1) is None,
        forall|i: int|
            0 <= i < legacy_entries(root).len() && #[trigger] legacy_entries(root)[i].0@ == id
                ==> entry_descriptor(legacy_entries(root)[i].1) is None,
    ensures
        !document_servers(root).contains_key(id),
{
    lemma_add_source(Map::empty(), primary_entries(root), id);
    lemma_add_source(add_servers(Map::empty(), primary_entries(root)), legacy_entries(root), id);
}

/// A descriptor value that is valid and complete: its type is known, and a
/// stdio one names its command, an http or sse one its url.
pub open spec fn complete(value: Node) -> bool {
    value_descriptor(value) matches Some(d) && (if d.transport == Transport::Stdio {
        d.command is Some
    } else {
        d.url is Some
    })
}

/// The map a list of (id, descriptor value) pairs stands for: the first
/// valid value for each id.
pub open spec fn descriptor_servers(
    acc: Map<Seq<char>, DescriptorView>,
    servers: Seq<(String, Node)>,
) -> Map<Seq<char>, DescriptorView>
    decreases servers.len(),
{
    if servers.len() == 0 {
        acc
    } else {
        let p = servers[0];
        let next = if !acc.contains_key(p.0@) && value_descriptor(p.1) is Some {
            acc.insert(p.0@, value_descriptor(p.1)->0)
        } else {
            acc
        };
        descriptor_servers(next, servers.drop_first())
    }
}

/// Round trip: for valid, complete descriptor values, what reads back after a
/// write (`written_servers`, by the contract of `write_document`) is the map
/// that was written.
pub proof fn lemma_round_trip(acc: Map<Seq<char>, DescriptorView>, servers: Seq<(String, Node)>)
    requires
        forall|i: int| 0 <= i < servers.len() ==> #[trigger] complete(servers[i].1),
    ensures
        written_servers(acc, servers) == descriptor_servers(acc, servers),
    decreases servers.len(),
{
    if servers.len() > 0 {
        let p = servers[0];
        assert(complete(p.1));
        let d = value_descriptor(p.1)->0;
        assert(written(d) =~= d);
        assert forall|i: int| 0 <= i < servers.drop_first().len() implies #[trigger] complete(
            servers.drop_first()[i].1,
        ) by {
            assert(servers.drop_first()[i] == servers[i + 1]);
            assert(complete(servers[i + 1].1));
        }
        lemma_round_trip(written_step(acc, p), servers.drop_first());
    }
}

} // verus!

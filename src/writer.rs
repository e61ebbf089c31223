//! Writing a descriptor map into a configuration document: the primary table
//! `mcp_servers` is replaced as a whole (or removed when the map is empty),
//! the legacy table `mcp.servers` is removed, and everything else is kept.
use vstd::prelude::*;
use crate::descriptor::DescriptorView;
use crate::node::{keys_of, lemma_lookup_absent, lemma_lookup_push, lookup, strs_view, Node};
use crate::normalize::{
    descriptor_from_value, descriptor_to_entry, entry_descriptor, entry_keys, value_descriptor,
    table_of, written,
};
use crate::reader::{add_servers, document_servers, legacy_entries, primary_entries};

verus! {

/// One step of `written_servers`.
pub open spec fn written_step(
    acc: Map<Seq<char>, DescriptorView>,
    p: (String, Node),
) -> Map<Seq<char>, DescriptorView> {
    if !acc.contains_key(p.0@) && value_descriptor(p.1) is Some {
        acc.insert(p.0@, written(value_descriptor(p.1)->0))
    } else {
        acc
    }
}

/// The descriptor map that reads back after writing `servers`: each accepted
/// descriptor as stored, the first one for an id, rejected ones left out.
pub open spec fn written_servers(
    acc: Map<Seq<char>, DescriptorView>,
    servers: Seq<(String, Node)>,
) -> Map<Seq<char>, DescriptorView>
    decreases servers.len(),
{
    if servers.len() == 0 {
        acc
    } else {
        written_servers(written_step(acc, servers[0]), servers.drop_first())
    }
}

/// The ids whose descriptor value is rejected, in order.
pub open spec fn rejected_ids(servers: Seq<(String, Node)>) -> Seq<Seq<char>>
    decreases servers.len(),
{
    if servers.len() == 0 {
        Seq::empty()
    } else {
        let rest = rejected_ids(servers.drop_last());
        if value_descriptor(servers.last().1) is None {
            rest.push(servers.last().0@)
        } else {
            rest
        }
    }
}

/// One step of `add_servers`.
pub open spec fn add_step(
    acc: Map<Seq<char>, DescriptorView>,
    p: (String, Node),
) -> Map<Seq<char>, DescriptorView> {
    if !acc.contains_key(p.0@) && entry_descriptor(p.1) is Some {
        acc.insert(p.0@, entry_descriptor(p.1)->0)
    } else {
        acc
    }
}

proof fn lemma_add_servers_push(
    acc: Map<Seq<char>, DescriptorView>,
    s: Seq<(String, Node)>,
    p: (String, Node),
)
    ensures
        add_servers(acc, s.push(p)) == add_step(add_servers(acc, s), p),
    decreases s.len(),
{
    if s.len() == 0 {
        assert(s.push(p).drop_first() =~= s);
        assert(s.push(p)[0] == p);
        assert(add_servers(add_step(acc, p), s) == add_step(acc, p));
    } else {
        assert(s.push(p).drop_first() =~= s.drop_first().push(p));
        assert(s.push(p)[0] == s[0]);
        let next = if !acc.contains_key(s[0].0@) && entry_descriptor(s[0].1) is Some {
            acc.insert(s[0].0@, entry_descriptor(s[0].1)->0)
        } else {
            acc
        };
        lemma_add_servers_push(next, s.drop_first(), p);
    }
}

proof fn lemma_written_push(
    acc: Map<Seq<char>, DescriptorView>,
    s: Seq<(String, Node)>,
    p: (String, Node),
)
    ensures
        written_servers(acc, s.push(p)) == written_step(written_servers(acc, s), p),
    decreases s.len(),
{
    if s.len() == 0 {
        assert(s.push(p).drop_first() =~= s);
        assert(s.push(p)[0] == p);
        assert(written_servers(written_step(acc, p), s) == written_step(acc, p));
    } else {
        assert(s.push(p).drop_first() =~= s.drop_first().push(p));
        assert(s.push(p)[0] == s[0]);
        lemma_written_push(written_step(acc, s[0]), s.drop_first(), p);
    }
}

/// The table that replaces the primary location, and the ids whose
/// descriptor value was rejected.
pub struct ManagedTable {
    /// Stored entries, one per accepted descriptor, in the order given.
    pub entries: Vec<(String, Node)>,
    /// Ids of the descriptor values with an unknown type, in the order given.
    pub rejected: Vec<String>,
}

/// Builds the stored entries for a descriptor map given as (id, loosely-typed
/// descriptor value) pairs. A value with an unknown type is left out and its
/// id reported; the others are stored whatever they hold.
pub fn managed_table(servers: &Vec<(String, Node)>) -> (r: ManagedTable)
    ensures
        add_servers(Map::empty(), r.entries@) == written_servers(Map::empty(), servers@),
        strs_view(r.rejected@) == rejected_ids(servers@),
        r.entries@.len() + r.rejected@.len() == servers@.len(),
        forall|j: int|
            0 <= j < r.entries@.len() ==> #[trigger] r.entries@[j].1 is Table
                && keys_of(table_of(r.entries@[j].1)) == entry_keys(
                entry_descriptor(r.entries@[j].1)->0,
            ),
{
    let mut entries: Vec<(String, Node)> = Vec::new();
    let mut rejected: Vec<String> = Vec::new();
    let mut i: usize = 0;
    assert(add_servers(Map::empty(), entries@) == Map::<Seq<char>, DescriptorView>::empty());
    while i < servers.len()
        invariant
            i <= servers.len(),
            add_servers(Map::empty(), entries@) == written_servers(
                Map::empty(),
                servers@.subrange(0, i as int),
            ),
            strs_view(rejected@) == rejected_ids(servers@.subrange(0, i as int)),
            entries@.len() + rejected@.len() == i,
            forall|j: int|
                0 <= j < entries@.len() ==> #[trigger] entries@[j].1 is Table && keys_of(
                    table_of(entries@[j].1),
                ) == entry_keys(entry_descriptor(entries@[j].1)->0),
        decreases servers.len() - i,
    {
        let ghost pre = servers@.subrange(0, i as int);
        assert(servers@.subrange(0, i as int + 1) =~= pre.push(servers@[i as int]));
        assert(servers@.subrange(0, i as int + 1).drop_last() =~= pre);
        proof {
            lemma_written_push(Map::empty(), pre, servers@[i as int]);
        }
        match descriptor_from_value(&servers[i].1) {
            Ok(d) => {
                let e = descriptor_to_entry(&d);
                let ghost before = entries@;
                proof {
                    lemma_add_servers_push(Map::empty(), before, (servers@[i as int].0, e));
                    assert(entry_keys(written(d@)) =~= entry_keys(d@));
                }
                entries.push((servers[i].0.clone(), e));
                assert(entries@ =~= before.push((servers@[i as int].0, e)));
            },
            Err(_) => {
                let ghost before = rejected@;
                rejected.push(servers[i].0.clone());
                assert(strs_view(rejected@) =~= strs_view(before).push(servers@[i as int].0@));
            },
        }
        i = i + 1;
    }
    assert(servers@.subrange(0, servers@.len() as int) =~= servers@);
    ManagedTable { entries, rejected }
}

} // verus!

verus! {

proof fn lemma_lookup_push_all(s: Seq<(String, Node)>, p: (String, Node))
    ensures
        forall|k: Seq<char>|
            #[trigger] lookup(s.push(p), k) == (if lookup(s, k) is Some {
                lookup(s, k)
            } else if p.0@ == k {
                Some(p.1)
            } else {
                None
            }),
{
    assert forall|k: Seq<char>|
        #[trigger] lookup(s.push(p), k) == (if lookup(s, k) is Some {
            lookup(s, k)
        } else if p.0@ == k {
            Some(p.1)
        } else {
            None
        }) by {
        lemma_lookup_push(s, p, k);
    }
}

/// `after` is `before` without its entries under `key`: no entry carries
/// that key, and every other key reads as before.
pub open spec fn stripped(after: Seq<(String, Node)>, before: Seq<(String, Node)>, key: Seq<char>) -> bool {
    &&& forall|i: int| 0 <= i < after.len() ==> after[i].0@ != key
    &&& forall|k: Seq<char>| k != key ==> #[trigger] lookup(after, k) == lookup(before, k)
}

/// Removes the entries under `key` from a table, keeping the rest in order.
pub fn strip_key(t: Vec<(String, Node)>, key: &str) -> (r: Vec<(String, Node)>)
    ensures
        stripped(r@, t@, key@),
{
    let k0 = key.to_owned();
    let ghost whole = t@;
    let ghost mut c: int = 0;
    let mut rest = t;
    let mut out: Vec<(String, Node)> = Vec::new();
    assert(whole.subrange(0, 0) =~= Seq::<(String, Node)>::empty());
    while rest.len() > 0
        invariant
            0 <= c <= whole.len(),
            rest@ == whole.subrange(c, whole.len() as int),
            k0@ == key@,
            stripped(out@, whole.subrange(0, c), key@),
        decreases rest.len(),
    {
        let ghost prefix = whole.subrange(0, c);
        assert(whole.subrange(0, c + 1) =~= prefix.push(rest@[0]));
        assert(rest@.drop_first() =~= whole.subrange(c + 1, whole.len() as int));
        let p = rest.remove(0);
        proof {
            lemma_lookup_push_all(prefix, p);
            lemma_lookup_push_all(out@, p);
            c = c + 1;
        }
        if !p.0.eq(&k0) {
            out.push(p);
        }
    }
    assert(whole.subrange(0, c) =~= whole);
    out
}

/// How the legacy location of a written document relates to the original
/// one: a table there loses its `servers` entry and keeps the rest; anything
/// else is left as it was.
pub open spec fn legacy_cleared(after: Option<Node>, before: Option<Node>) -> bool {
    match before {
        Some(Node::Table(m)) => after matches Some(Node::Table(m2)) && stripped(
            m2@,
            m@,
            "servers"@,
        ),
        _ => after == before,
    }
}

proof fn lemma_location_names()
    ensures
        "mcp_servers"@.len() == 11,
        "mcp"@.len() == 3,
        "servers"@.len() == 7,
{
    reveal_strlit("mcp_servers");
    reveal_strlit("mcp");
    reveal_strlit("servers");
}

/// Writes a descriptor map, given as (id, loosely-typed descriptor value)
/// pairs, into a document's top-level table, and reports the ids whose value
/// was rejected for an unknown type.
///
/// Every top-level key but `mcp_servers` and `mcp` reads as before; the table
/// under `mcp` loses its `servers` entry; `mcp_servers` is gone when the map
/// is empty and otherwise holds the stored entries; and the document reads
/// back as `written_servers` of the map.
pub fn write_document(doc: Vec<(String, Node)>, servers: &Vec<(String, Node)>) -> (r: (
    Vec<(String, Node)>,
    Vec<String>,
))
    ensures
        forall|k: Seq<char>|
            k != "mcp_servers"@ && k != "mcp"@ ==> #[trigger] lookup(r.0@, k) == lookup(doc@, k),
        legacy_cleared(lookup(r.0@, "mcp"@), lookup(doc@, "mcp"@)),
        servers@.len() == 0 ==> lookup(r.0@, "mcp_servers"@) is None,
        servers@.len() > 0 ==> lookup(r.0@, "mcp_servers"@) is Some,
        document_servers(r.0@) == written_servers(Map::empty(), servers@),
        strs_view(r.1@) == rejected_ids(servers@),
{
    proof {
        lemma_location_names();
    }
    let primary = "mcp_servers".to_owned();
    let legacy = "mcp".to_owned();
    let ghost whole = doc@;
    let ghost mut c: int = 0;
    let mut rest = doc;
    let mut out: Vec<(String, Node)> = Vec::new();
    assert(whole.subrange(0, 0) =~= Seq::<(String, Node)>::empty());
    while rest.len() > 0
        invariant
            0 <= c <= whole.len(),
            rest@ == whole.subrange(c, whole.len() as int),
            primary@ == "mcp_servers"@,
            legacy@ == "mcp"@,
            forall|k: Seq<char>|
                k != "mcp_servers"@ && k != "mcp"@ ==> #[trigger] lookup(out@, k) == lookup(
                    whole.subrange(0, c),
                    k,
                ),
            forall|i: int| 0 <= i < out@.len() ==> out@[i].0@ != "mcp_servers"@,
            legacy_cleared(lookup(out@, "mcp"@), lookup(whole.subrange(0, c), "mcp"@)),
        decreases rest.len(),
    {
        let ghost prefix = whole.subrange(0, c);
        assert(whole.subrange(0, c + 1) =~= prefix.push(rest@[0]));
        assert(rest@.drop_first() =~= whole.subrange(c + 1, whole.len() as int));
        let (k, n) = rest.remove(0);
        let ghost before = out@;
        proof {
            lemma_lookup_push_all(prefix, (k, n));
            lemma_location_names();
            c = c + 1;
        }
        if k.eq(&primary) {
        } else if k.eq(&legacy) {
            let n2 = match n {
                Node::Table(m) => Node::Table(strip_key(m, "servers")),
                other => other,
            };
            proof {
                lemma_lookup_push_all(before, (k, n2));
            }
            out.push((k, n2));
        } else {
            proof {
                lemma_lookup_push_all(before, (k, n));
            }
            out.push((k, n));
        }
    }
    assert(whole.subrange(0, c) =~= whole);
    let m = managed_table(servers);
    let ghost base = out@;
    proof {
        lemma_lookup_absent(base, "mcp_servers"@);
    }
    if servers.len() > 0 {
        proof {
            lemma_lookup_push_all(base, (primary, Node::Table(m.entries)));
        }
        out.push((primary, Node::Table(m.entries)));
    } else {
        assert(servers@ =~= Seq::<(String, Node)>::empty());
        assert(add_servers(Map::empty(), Seq::<(String, Node)>::empty()) == Map::<Seq<char>, DescriptorView>::empty());
    }
    proof {
        match lookup(out@, "mcp"@) {
            Some(Node::Table(m2)) => {
                lemma_lookup_absent(m2@, "servers"@);
            },
            _ => {},
        }
        assert(legacy_entries(out@) =~= Seq::empty());
        assert(add_servers(add_servers(Map::empty(), primary_entries(out@)), Seq::empty())
            == add_servers(Map::empty(), primary_entries(out@)));
    }
    (out, m.rejected)
}

} // verus!

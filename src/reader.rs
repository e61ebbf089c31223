//! Reading the descriptor map out of a configuration document, from the
//! primary table `mcp_servers` and from the legacy table `mcp.servers`.
use vstd::prelude::*;
use crate::descriptor::{DescriptorView, ServerDescriptor};
use crate::node::{get_table, lookup, Node};
use crate::normalize::{entry_descriptor, entry_to_descriptor};

verus! {

/// The entries of the primary location: the top-level table `mcp_servers`.
pub open spec fn primary_entries(root: Seq<(String, Node)>) -> Seq<(String, Node)> {
    match lookup(root, "mcp_servers"@) {
        Some(Node::Table(t)) => t@,
        _ => Seq::empty(),
    }
}

/// The entries of the legacy location: the table `servers` inside the
/// top-level table `mcp`.
pub open spec fn legacy_entries(root: Seq<(String, Node)>) -> Seq<(String, Node)> {
    match lookup(root, "mcp"@) {
        Some(Node::Table(m)) => match lookup(m@, "servers"@) {
            Some(Node::Table(s)) => s@,
            _ => Seq::empty(),
        },
        _ => Seq::empty(),
    }
}

/// Adds the entries, in order, to a descriptor map: an entry whose id is
/// already there, or that gives no descriptor, is passed over.
pub open spec fn add_servers(
    acc: Map<Seq<char>, DescriptorView>,
    entries: Seq<(String, Node)>,
) -> Map<Seq<char>, DescriptorView>
    decreases entries.len(),
{
    if entries.len() == 0 {
        acc
    } else {
        let k = entries[0].0@;
        let next = if !acc.contains_key(k) && entry_descriptor(entries[0].1) is Some {
            acc.insert(k, entry_descriptor(entries[0].1)->0)
        } else {
            acc
        };
        add_servers(next, entries.drop_first())
    }
}

/// The descriptor map a document holds: the primary entries first, then the
/// legacy entries whose id is not yet taken.
pub open spec fn document_servers(root: Seq<(String, Node)>) -> Map<Seq<char>, DescriptorView> {
    add_servers(add_servers(Map::empty(), primary_entries(root)), legacy_entries(root))
}

/// The map a list of (id, descriptor) pairs stands for.
pub open spec fn servers_map(v: Seq<(String, ServerDescriptor)>) -> Map<Seq<char>, DescriptorView>
    decreases v.len(),
{
    if v.len() == 0 {
        Map::empty()
    } else {
        servers_map(v.drop_last()).insert(v.last().0@, v.last().1@)
    }
}

/// No two pairs share an id.
pub open spec fn distinct_ids<T>(v: Seq<(String, T)>) -> bool {
    forall|i: int, j: int| 0 <= i < j < v.len() ==> v[i].0@ != v[j].0@
}

/// The ids of a list of pairs are the keys of its map.
pub proof fn lemma_servers_map_dom(v: Seq<(String, ServerDescriptor)>, k: Seq<char>)
    ensures
        servers_map(v).contains_key(k) <==> exists|i: int| 0 <= i < v.len() && v[i].0@ == k,
    decreases v.len(),
{
    if v.len() > 0 {
        lemma_servers_map_dom(v.drop_last(), k);
        if servers_map(v).contains_key(k) && v.last().0@ != k {
            let i = choose|i: int| 0 <= i < v.drop_last().len() && v.drop_last()[i].0@ == k;
            assert(v[i] == v.drop_last()[i]);
        }
        if exists|i: int| 0 <= i < v.len() && v[i].0@ == k {
            let i = choose|i: int| 0 <= i < v.len() && v[i].0@ == k;
            if i < v.len() - 1 {
                assert(v.drop_last()[i] == v[i]);
            }
        }
    }
}

fn contains_id(v: &Vec<(String, ServerDescriptor)>, k: &String) -> (r: bool)
    ensures
        r == servers_map(v@).contains_key(k@),
{
    proof {
        lemma_servers_map_dom(v@, k@);
    }
    let mut i: usize = 0;
    while i < v.len()
        invariant
            i <= v.len(),
            forall|j: int| 0 <= j < i ==> v@[j].0@ != k@,
        decreases v.len() - i,
    {
        if v[i].0.eq(k) {
            proof {
                lemma_servers_map_dom(v@, k@);
                assert(0 <= i < v@.len() && v@[i as int].0@ == k@);
                assert(exists|j: int| 0 <= j < v@.len() && v@[j].0@ == k@);
            }
            return true;
        }
        i = i + 1;
    }
    false
}

fn add_entries(result: &mut Vec<(String, ServerDescriptor)>, entries: &Vec<(String, Node)>)
    requires
        distinct_ids(old(result)@),
    ensures
        distinct_ids(final(result)@),
        servers_map(final(result)@) == add_servers(servers_map(old(result)@), entries@),
{
    let ghost start = servers_map(result@);
    let mut i: usize = 0;
    assert(entries@.subrange(0, entries@.len() as int) =~= entries@);
    while i < entries.len()
        invariant
            i <= entries.len(),
            distinct_ids(result@),
            add_servers(start, entries@) == add_servers(
                servers_map(result@),
                entries@.subrange(i as int, entries@.len() as int),
            ),
        decreases entries.len() - i,
    {
        let ghost rest = entries@.subrange(i as int, entries@.len() as int);
        assert(rest.drop_first() =~= entries@.subrange(i as int + 1, entries@.len() as int));
        assert(rest[0] == entries@[i as int]);
        let id = &entries[i].0;
        if !contains_id(result, id) {
            match entry_to_descriptor(&entries[i].1) {
                Some(d) => {
                    let ghost before = result@;
                    proof {
                        lemma_servers_map_dom(before, id@);
                    }
                    result.push((id.clone(), d));
                    assert(result@.drop_last() =~= before);
                },
                None => {},
            }
        }
        i = i + 1;
    }
}

/// Reads the descriptor map out of a document's top-level table. Entries of
/// the primary location come first; a legacy entry is taken only when its id
/// is not yet in the map; entries that give no descriptor are passed over.
pub fn read_document(root: &Vec<(String, Node)>) -> (r: Vec<(String, ServerDescriptor)>)
    ensures
        distinct_ids(r@),
        servers_map(r@) == document_servers(root@),
{
    let mut r: Vec<(String, ServerDescriptor)> = Vec::new();
    assert(servers_map(r@) =~= Map::empty());
    match get_table(root, "mcp_servers") {
        Some(t) => add_entries(&mut r, t),
        None => {
            let empty: Vec<(String, Node)> = Vec::new();
            add_entries(&mut r, &empty);
        },
    }
    assert(servers_map(r@) == add_servers(Map::empty(), primary_entries(root@)));
    let empty: Vec<(String, Node)> = Vec::new();
    let legacy = match get_table(root, "mcp") {
        Some(m) => match get_table(m, "servers") {
            Some(s) => s,
            None => &empty,
        },
        None => &empty,
    };
    assert(legacy@ == legacy_entries(root@));
    add_entries(&mut r, legacy);
    r
}

} // verus!

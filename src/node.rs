//! A plain model of a structured document value (a TOML or JSON value), with
//! accessors that answer "absent" for a missing or mistyped field.
use vstd::prelude::*;

verus! {

/// One value of a structured document, holding what the engine reads.
/// Numbers, booleans and dates are all `Other`: the engine never looks inside them.
pub enum Node {
    Str(String),
    Arr(Vec<Node>),
    Table(Vec<(String, Node)>),
    Other,
}

/// The string a node holds, if it is a string.
pub open spec fn str_of(n: Node) -> Option<Seq<char>> {
    match n {
        Node::Str(s) => Some(s@),
        _ => None,
    }
}

/// The value under `key` in a table: the first entry with that key.
pub open spec fn lookup(t: Seq<(String, Node)>, key: Seq<char>) -> Option<Node>
    decreases t.len(),
{
    if t.len() == 0 {
        None
    } else if t[0].0@ == key {
        Some(t[0].1)
    } else {
        lookup(t.drop_first(), key)
    }
}

/// The string under `key`, absent when missing or not a string.
pub open spec fn str_field(t: Seq<(String, Node)>, key: Seq<char>) -> Option<Seq<char>> {
    match lookup(t, key) {
        Some(Node::Str(s)) => Some(s@),
        _ => None,
    }
}

/// The strings among the items of an array, in order; other items are left out.
pub open spec fn str_items(s: Seq<Node>) -> Seq<Seq<char>>
    decreases s.len(),
{
    if s.len() == 0 {
        Seq::empty()
    } else {
        let rest = str_items(s.drop_last());
        match s.last() {
            Node::Str(x) => rest.push(x@),
            _ => rest,
        }
    }
}

/// The entries of a table whose value is a string, in order; other entries are left out.
pub open spec fn str_pairs(t: Seq<(String, Node)>) -> Seq<(Seq<char>, Seq<char>)>
    decreases t.len(),
{
    if t.len() == 0 {
        Seq::empty()
    } else {
        let rest = str_pairs(t.drop_last());
        match t.last().1 {
            Node::Str(x) => rest.push((t.last().0@, x@)),
            _ => rest,
        }
    }
}

/// The strings of an array under `key`; empty when missing or not an array.
pub open spec fn array_field(t: Seq<(String, Node)>, key: Seq<char>) -> Seq<Seq<char>> {
    match lookup(t, key) {
        Some(Node::Arr(a)) => str_items(a@),
        _ => Seq::empty(),
    }
}

/// The string entries of a table under `key`; empty when missing or not a table.
pub open spec fn pairs_field(t: Seq<(String, Node)>, key: Seq<char>) -> Seq<(Seq<char>, Seq<char>)> {
    match lookup(t, key) {
        Some(Node::Table(u)) => str_pairs(u@),
        _ => Seq::empty(),
    }
}

/// The views of a sequence of strings.
pub open spec fn strs_view(v: Seq<String>) -> Seq<Seq<char>> {
    v.map_values(|s: String| s@)
}

/// The views of a sequence of string pairs.
pub open spec fn pairs_view(v: Seq<(String, String)>) -> Seq<(Seq<char>, Seq<char>)> {
    v.map_values(|p: (String, String)| (p.0@, p.1@))
}

/// The keys of a table, in order.
pub open spec fn keys_of(t: Seq<(String, Node)>) -> Seq<Seq<char>> {
    t.map_values(|p: (String, Node)| p.0@)
}

/// The value under `key` in a table, or `None`.
pub fn get<'a>(t: &'a Vec<(String, Node)>, key: &str) -> (r: Option<&'a Node>)
    ensures
        r matches Some(n) ==> lookup(t@, key@) == Some(*n),
        r is None <==> lookup(t@, key@) is None,
{
    let k = key.to_owned();
    let mut i: usize = 0;
    assert(t@.subrange(0, t@.len() as int) =~= t@);
    while i < t.len()
        invariant
            i <= t.len(),
            k@ == key@,
            lookup(t@, key@) == lookup(t@.subrange(i as int, t@.len() as int), key@),
        decreases t.len() - i,
    {
        assert(t@.subrange(i as int, t@.len() as int).drop_first() =~= t@.subrange(
            i as int + 1,
            t@.len() as int,
        ));
        if t[i].0 == k {
            return Some(&t[i].1);
        }
        i = i + 1;
    }
    None
}

/// The string under `key`, or `None` when missing or not a string.
pub fn get_str<'a>(t: &'a Vec<(String, Node)>, key: &str) -> (r: Option<&'a String>)
    ensures
        r matches Some(s) ==> str_field(t@, key@) == Some(s@),
        r is None <==> str_field(t@, key@) is None,
{
    match get(t, key) {
        Some(Node::Str(s)) => Some(s),
        _ => None,
    }
}

/// The table under `key`, or `None` when missing or not a table.
pub fn get_table<'a>(t: &'a Vec<(String, Node)>, key: &str) -> (r: Option<&'a Vec<(String, Node)>>)
    ensures
        r matches Some(u) ==> lookup(t@, key@) == Some(Node::Table(*u)),
        r is None <==> !(lookup(t@, key@) matches Some(Node::Table(_))),
{
    match get(t, key) {
        Some(Node::Table(u)) => Some(u),
        _ => None,
    }
}

/// The strings among the items of an array, in order.
pub fn strings_of(items: &Vec<Node>) -> (r: Vec<String>)
    ensures
        strs_view(r@) == str_items(items@),
{
    let mut r: Vec<String> = Vec::new();
    let mut i: usize = 0;
    while i < items.len()
        invariant
            i <= items.len(),
            strs_view(r@) == str_items(items@.subrange(0, i as int)),
        decreases items.len() - i,
    {
        assert(items@.subrange(0, i as int + 1).drop_last() =~= items@.subrange(0, i as int));
        match &items[i] {
            Node::Str(s) => {
                r.push(s.clone());
                assert(strs_view(r@) =~= strs_view(r@.drop_last()).push(s@));
            },
            _ => {},
        }
        i = i + 1;
    }
    assert(items@.subrange(0, items@.len() as int) =~= items@);
    r
}

/// The entries of a table whose value is a string, in order.
pub fn string_pairs_of(t: &Vec<(String, Node)>) -> (r: Vec<(String, String)>)
    ensures
        pairs_view(r@) == str_pairs(t@),
{
    let mut r: Vec<(String, String)> = Vec::new();
    let mut i: usize = 0;
    while i < t.len()
        invariant
            i <= t.len(),
            pairs_view(r@) == str_pairs(t@.subrange(0, i as int)),
        decreases t.len() - i,
    {
        assert(t@.subrange(0, i as int + 1).drop_last() =~= t@.subrange(0, i as int));
        match &t[i].1 {
            Node::Str(s) => {
                r.push((t[i].0.clone(), s.clone()));
                assert(pairs_view(r@) =~= pairs_view(r@.drop_last()).push((t@[i as int].0@, s@)));
            },
            _ => {},
        }
        i = i + 1;
    }
    assert(t@.subrange(0, t@.len() as int) =~= t@);
    r
}

/// The strings of the array under `key`; empty when missing or not an array.
pub fn get_strings(t: &Vec<(String, Node)>, key: &str) -> (r: Vec<String>)
    ensures
        strs_view(r@) == array_field(t@, key@),
{
    match get(t, key) {
        Some(Node::Arr(a)) => strings_of(a),
        _ => Vec::new(),
    }
}

/// The string entries of the table under `key`; empty when missing or not a table.
pub fn get_string_pairs(t: &Vec<(String, Node)>, key: &str) -> (r: Vec<(String, String)>)
    ensures
        pairs_view(r@) == pairs_field(t@, key@),
{
    match get(t, key) {
        Some(Node::Table(u)) => string_pairs_of(u),
        _ => Vec::new(),
    }
}

} // verus!

verus! {

/// Looking up a key after one more entry is appended.
pub proof fn lemma_lookup_push(s: Seq<(String, Node)>, p: (String, Node), key: Seq<char>)
    ensures
        lookup(s.push(p), key) == (if lookup(s, key) is Some {
            lookup(s, key)
        } else if p.0@ == key {
            Some(p.1)
        } else {
            None
        }),
    decreases s.len(),
{
    if s.len() > 0 {
        assert(s.push(p).drop_first() =~= s.drop_first().push(p));
        assert(s.push(p)[0] == s[0]);
        lemma_lookup_push(s.drop_first(), p, key);
    } else {
        assert(s.push(p).drop_first() =~= Seq::<(String, Node)>::empty());
        assert(s.push(p)[0] == p);
        assert(lookup(Seq::<(String, Node)>::empty(), key) is None);
    }
}

/// A key that no entry carries is not found.
pub proof fn lemma_lookup_absent(s: Seq<(String, Node)>, key: Seq<char>)
    requires
        forall|i: int| 0 <= i < s.len() ==> s[i].0@ != key,
    ensures
        lookup(s, key) is None,
    decreases s.len(),
{
    if s.len() > 0 {
        assert forall|i: int| 0 <= i < s.drop_first().len() implies s.drop_first()[i].0@ != key by {
            assert(s.drop_first()[i] == s[i + 1]);
        }
        lemma_lookup_absent(s.drop_first(), key);
    }
}

} // verus!

verus! {

/// Appends one entry to a table.
pub fn push_entry(t: &mut Vec<(String, Node)>, key: &str, n: Node)
    ensures
        final(t)@.len() == old(t)@.len() + 1,
        final(t)@.drop_last() == old(t)@,
        final(t)@.last().0@ == key@,
        final(t)@.last().1 == n,
        keys_of(final(t)@) == keys_of(old(t)@).push(key@),
        forall|k: Seq<char>|
            #[trigger] lookup(final(t)@, k) == (if lookup(old(t)@, k) is Some {
                lookup(old(t)@, k)
            } else if key@ == k {
                Some(n)
            } else {
                None
            }),
{
    let ghost before = t@;
    let k = key.to_owned();
    proof {
        assert forall|kk: Seq<char>| #[trigger]
            lookup(before.push((k, n)), kk) == (if lookup(before, kk) is Some {
                lookup(before, kk)
            } else if key@ == kk {
                Some(n)
            } else {
                None
            }) by {
            lemma_lookup_push(before, (k, n), kk);
        }
    }
    t.push((k, n));
    assert(t@.drop_last() =~= before);
    assert(keys_of(t@) =~= keys_of(before).push(key@));
}

/// An array of string nodes holding the given strings.
pub fn nodes_of_strings(v: &Vec<String>) -> (r: Vec<Node>)
    ensures
        str_items(r@) == strs_view(v@),
{
    let mut r: Vec<Node> = Vec::new();
    let mut i: usize = 0;
    while i < v.len()
        invariant
            i <= v.len(),
            str_items(r@) == strs_view(v@.subrange(0, i as int)),
        decreases v.len() - i,
    {
        let ghost before = r@;
        r.push(Node::Str(v[i].clone()));
        assert(r@.drop_last() =~= before);
        assert(strs_view(v@.subrange(0, i as int + 1)) =~= strs_view(v@.subrange(0, i as int)).push(
            v@[i as int]@,
        ));
        i = i + 1;
    }
    assert(v@.subrange(0, v@.len() as int) =~= v@);
    r
}

/// A table of string nodes holding the given pairs.
pub fn table_of_pairs(v: &Vec<(String, String)>) -> (r: Vec<(String, Node)>)
    ensures
        str_pairs(r@) == pairs_view(v@),
{
    let mut r: Vec<(String, Node)> = Vec::new();
    let mut i: usize = 0;
    while i < v.len()
        invariant
            i <= v.len(),
            str_pairs(r@) == pairs_view(v@.subrange(0, i as int)),
        decreases v.len() - i,
    {
        let ghost before = r@;
        r.push((v[i].0.clone(), Node::Str(v[i].1.clone())));
        assert(r@.drop_last() =~= before);
        assert(pairs_view(v@.subrange(0, i as int + 1)) =~= pairs_view(v@.subrange(0, i as int)).push(
            (v@[i as int].0@, v@[i as int].1@),
        ));
        i = i + 1;
    }
    assert(v@.subrange(0, v@.len() as int) =~= v@);
    r
}

} // verus!

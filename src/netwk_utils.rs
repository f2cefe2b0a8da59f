//! Descriptions of nodes and of a project's deployment configuration.
use vstd::prelude::*;
use vstd::string::{StrSliceExecFns, StringExecFns};
use vstd::std_specs::hash::{builds_valid_hashers, obeys_key_model};
use std::collections::HashMap;
use crate::bytes::push_char;
use std::collections::hash_map::RandomState;

verus! {

/// A node of the network: its id, name, owner's email and address.
#[derive(Debug, Clone)]
pub struct Node {
    pub node_id: String,
    pub name: String,
    pub email: String,
    pub addr: String,
}

impl Node {
    /// The node's fields keyed by their names. What the map holds is stated
    /// under the hash-table model for `String` keys.
    pub fn to_hashmap(&self) -> (r: HashMap<String, String>)
        ensures
            obeys_key_model::<String>() && builds_valid_hashers::<RandomState>() ==> exists|
                k1: String,
                k2: String,
                k3: String,
                k4: String,
            |
                k1@ == "node_id"@ && k2@ == "name"@ && k3@ == "email"@ && k4@ == "addr"@ && r@
                    == Map::<String, String>::empty().insert(k1, self.node_id).insert(
                    k2,
                    self.name,
                ).insert(k3, self.email).insert(k4, self.addr),
    {
        let mut map: HashMap<String, String> = HashMap::new();
        let k1 = String::from_str("node_id");
        let k2 = String::from_str("name");
        let k3 = String::from_str("email");
        let k4 = String::from_str("addr");
        let ghost (g1, g2, g3, g4) = (k1, k2, k3, k4);
        map.insert(k1, self.node_id.clone());
        map.insert(k2, self.name.clone());
        map.insert(k3, self.email.clone());
        map.insert(k4, self.addr.clone());
        proof {
            if obeys_key_model::<String>() && builds_valid_hashers::<RandomState>() {
                assert(map@ == Map::<String, String>::empty().insert(g1, self.node_id).insert(
                    g2,
                    self.name,
                ).insert(g3, self.email).insert(g4, self.addr));
            }
        }
        map
    }
}

/// The deployment configuration of a project: its name, the nodes it runs
/// on, `[host, container]` port and volume pairs, and its ignore rules.
#[derive(Debug, Clone, Default)]
pub struct ProjConfig {
    pub proj_name: String,
    pub node_names: Vec<String>,
    pub port_mapping: Vec<[u16; 2]>,
    pub volume_mapping: Vec<[String; 2]>,
    pub ignore: Vec<String>,
}

/// The lower-case form of a text under Unicode case mapping.
pub uninterp spec fn lower_of(s: Seq<char>) -> Seq<char>;

/// Relies on `str::to_lowercase`: the result depends on the characters
/// alone.
#[verifier::external_body]
fn lowercase(s: &str) -> (r: String)
    ensures
        r@ == lower_of(s@),
{
    s.to_lowercase()
}

/// The text with every space replaced by an underscore.
pub open spec fn spaces_to_underscores(s: Seq<char>) -> Seq<char> {
    s.map_values(|c: char| if c == ' ' { '_' } else { c })
}

/// The name a project runs under: spaces become underscores, then the
/// text is lower-cased.
pub open spec fn docker_name(s: Seq<char>) -> Seq<char> {
    lower_of(spaces_to_underscores(s))
}

/// `s` with every space replaced by an underscore.
fn replace_spaces(s: &str) -> (r: String)
    ensures
        r@ == spaces_to_underscores(s@),
{
    let n = s.unicode_len();
    let mut out = String::new();
    let mut i: usize = 0;
    while i < n
        invariant
            n == s@.len(),
            i <= n,
            out@ == spaces_to_underscores(s@.subrange(0, i as int)),
        decreases n - i,
    {
        let c = s.get_char(i);
        push_char(&mut out, if c == ' ' { '_' } else { c });
        i = i + 1;
        assert(spaces_to_underscores(s@.subrange(0, i as int)) =~= spaces_to_underscores(
            s@.subrange(0, i - 1),
        ).push(if c == ' ' { '_' } else { c }));
    }
    assert(s@.subrange(0, n as int) =~= s@);
    out
}

impl ProjConfig {
    /// Rewrites the project's name into the form a container runtime
    /// accepts; returns whether the name was already in that form.
    pub fn parse_name(&mut self) -> (r: bool)
        ensures
            final(self).proj_name@ == docker_name(old(self).proj_name@),
            r == (docker_name(old(self).proj_name@) == old(self).proj_name@),
            final(self).node_names == old(self).node_names,
            final(self).port_mapping == old(self).port_mapping,
            final(self).volume_mapping == old(self).volume_mapping,
            final(self).ignore == old(self).ignore,
    {
        let underscored = replace_spaces(self.proj_name.as_str());
        let parsed = lowercase(underscored.as_str());
        let res = parsed == self.proj_name;
        self.proj_name = parsed;
        res
    }
}

} // verus!

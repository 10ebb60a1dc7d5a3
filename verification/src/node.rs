//! The identity of this HAAVK node.
//!
//! The node id is taken from the configuration where it names one, else from
//! the persisted `node_id` file, else newly made from a random UUID (and then
//! persisted by the caller).
use vstd::prelude::*;

use crate::config::MandelConfig;
use crate::text::{
    chars_of, join_path, owned, path_join, push_char, push_str, string_of, trim, trim_seq,
};

verus! {

/// A lowercase hexadecimal digit.
pub open spec fn is_lower_hex(c: char) -> bool {
    ('0' <= c <= '9') || ('a' <= c <= 'f')
}

/// An uppercase hexadecimal digit.
pub open spec fn is_upper_hex(c: char) -> bool {
    ('0' <= c <= '9') || ('A' <= c <= 'F')
}

/// A fresh random (version 4) UUID in its simple form:
/// `uuid::Uuid::new_v4().simple().to_string()`. The crate writes the simple
/// form as 32 lowercase hexadecimal digits; which digits come is random, and
/// nothing more is claimed of them.
#[verifier::external_body]
fn new_uuid_simple() -> (s: String)
    ensures
        s@.len() == 32,
        forall|i: int| 0 <= i < 32 ==> is_lower_hex(#[trigger] s@[i]),
{
    uuid::Uuid::new_v4().simple().to_string()
}

/// The identity of this node.
#[derive(Debug)]
pub struct NodeInfo {
    pub node_id: String,
}

/// The shape of a newly made node id: `HAAVK-NODE-` and 8 uppercase hex digits.
pub open spec fn is_generated_id(s: Seq<char>) -> bool {
    &&& s.len() == 19
    &&& s.take(11) == "HAAVK-NODE-"@
    &&& forall|i: int| 11 <= i < 19 ==> is_upper_hex(#[trigger] s[i])
}

/// A persisted node id: the file's contents trimmed, where not empty.
pub open spec fn persisted_id_spec(content: Seq<char>) -> Option<Seq<char>> {
    if trim_seq(content).len() == 0 {
        None
    } else {
        Some(trim_seq(content))
    }
}

/// The node id held in the contents of the `node_id` file, if any.
pub fn persisted_id(content: &str) -> (r: Option<String>)
    ensures
        match persisted_id_spec(content@) {
            Some(id) => r matches Some(s) && s@ == id,
            None => r is None,
        },
{
    let t = trim(content);
    if t.as_str().is_empty() {
        None
    } else {
        Some(t)
    }
}

/// A UUID in its simple form: 32 lowercase hexadecimal digits.
pub open spec fn is_uuid_simple(u: Seq<char>) -> bool {
    &&& u.len() == 32
    &&& forall|i: int| 0 <= i < 32 ==> is_lower_hex(#[trigger] u[i])
}

/// A hexadecimal digit in uppercase (`a`..`f` become `A`..`F`).
pub open spec fn upper_hex_char(c: char) -> char {
    if 'a' <= c <= 'f' {
        (((c as u32) - 32) as u8) as char
    } else {
        c
    }
}

/// Hexadecimal digits in uppercase.
pub open spec fn upper_hex(s: Seq<char>) -> Seq<char> {
    s.map_values(|c: char| upper_hex_char(c))
}

/// The node id made from the UUID `u`: `HAAVK-NODE-` and the first 8
/// digits of `u` in uppercase.
pub open spec fn node_id_spec(u: Seq<char>) -> Seq<char> {
    "HAAVK-NODE-"@ + upper_hex(u.take(8))
}

/// A node id made from a UUID has the shape of a generated id.
pub proof fn lemma_node_id_shape(u: Seq<char>)
    requires
        is_uuid_simple(u),
    ensures
        is_generated_id(node_id_spec(u)),
{
    reveal_strlit("HAAVK-NODE-");
    let r = node_id_spec(u);
    assert(r.take(11) =~= "HAAVK-NODE-"@);
    assert forall|i: int| 11 <= i < 19 implies is_upper_hex(#[trigger] r[i]) by {
        let c = u[i - 11];
        assert(is_lower_hex(c));
        if 'a' <= c <= 'f' {
            assert(65 <= (c as u32) - 32 <= 70);
        }
    }
}

/// The node id made from the UUID `u` (simple form): `HAAVK-NODE-` and its
/// first 8 digits in uppercase.
pub fn node_id_from_uuid(u: &str) -> (r: String)
    requires
        is_uuid_simple(u@),
    ensures
        r@ == node_id_spec(u@),
        is_generated_id(r@),
{
    let v = chars_of(u);
    let mut r = owned("HAAVK-NODE-");
    proof {
        reveal_strlit("HAAVK-NODE-");
    }
    let mut i: usize = 0;
    while i < 8
        invariant
            i <= 8,
            v@ == u@,
            is_uuid_simple(u@),
            r@ == "HAAVK-NODE-"@ + upper_hex(u@.take(i as int)),
        decreases 8 - i,
    {
        let c = v[i];
        let up = if 'a' <= c && c <= 'f' {
            ((c as u32) - 32) as u8 as char
        } else {
            c
        };
        assert(up == upper_hex_char(c));
        let ghost before = r@;
        push_char(&mut r, up);
        assert(upper_hex(u@.take(i as int + 1)) =~= upper_hex(u@.take(i as int)).push(upper_hex_char(u@[i as int])));
        assert(r@ =~= "HAAVK-NODE-"@ + upper_hex(u@.take(i as int + 1)));
        i = i + 1;
    }
    proof {
        lemma_node_id_shape(u@);
    }
    r
}

/// A new node id: `HAAVK-NODE-` and the first 8 digits of a random UUID, in
/// uppercase.
pub fn generate_node_id() -> (r: String)
    ensures
        exists|u: Seq<char>| is_uuid_simple(u) && r@ == #[trigger] node_id_spec(u),
        is_generated_id(r@),
{
    let u = new_uuid_simple();
    assert(is_uuid_simple(u@));
    let r = node_id_from_uuid(u.as_str());
    assert(r@ == node_id_spec(u@));
    r
}

/// Where the node id comes from.
pub open spec fn node_id_source(config_id: Seq<char>, persisted: Option<Seq<char>>) -> Option<Seq<char>> {
    if trim_seq(config_id).len() > 0 {
        Some(trim_seq(config_id))
    } else {
        match persisted {
            Some(c) => persisted_id_spec(c),
            None => None,
        }
    }
}

impl NodeInfo {
    /// This node's identity: the configured id (trimmed) where it is not
    /// blank, else the id in the persisted `node_id` file contents
    /// (`persisted`, `None` where there is no such file), else a new id. The
    /// flag says whether the id is new and must be persisted.
    pub fn load(config: &MandelConfig, persisted: Option<&str>) -> (r: (NodeInfo, bool))
        ensures
            match node_id_source(
                config.core.node_id@,
                match persisted {
                    Some(c) => Some(c@),
                    None => None,
                },
            ) {
                Some(id) => r.0.node_id@ == id && !r.1,
                None => {
                    &&& is_generated_id(r.0.node_id@)
                    &&& exists|u: Seq<char>| is_uuid_simple(u) && r.0.node_id@ == #[trigger] node_id_spec(u)
                    &&& r.1
                },
            },
    {
        let t = trim(config.core.node_id.as_str());
        if !t.as_str().is_empty() {
            return (NodeInfo { node_id: t }, false);
        }
        match persisted {
            Some(c) => match persisted_id(c) {
                Some(id) => {
                    return (NodeInfo { node_id: id }, false);
                },
                None => {},
            },
            None => {},
        }
        (NodeInfo { node_id: generate_node_id() }, true)
    }
}

/// The file that holds the persisted node id: `node_id` under the HAAVK home.
pub fn node_id_path(home: &str) -> (r: String)
    ensures
        r@ == path_join(home@, "node_id"@),
{
    join_path(home, "node_id")
}

} // verus!

//! Registered nodes: independently launched binaries recorded by the
//! build pipeline.  The node registry file is build-pipeline output and
//! outside the broker core; this type carries one record of it.

use vstd::prelude::*;

verus! {

/// One registered node: its name, the path of its package, and the
/// binary that runs it.
#[derive(Debug)]
pub struct NodeFile {
    pub name: String,
    pub package_path: String,
    pub bin: String,
}

/// The first registered node carrying the name, if any.
pub open spec fn node_lookup(v: Seq<NodeFile>, name: Seq<char>) -> Option<int>
    decreases v.len(),
{
    if v.len() == 0 {
        None
    } else if v[0].name@ == name {
        Some(0int)
    } else {
        match node_lookup(v.drop_first(), name) {
            Some(i) => Some(i + 1),
            None => None,
        }
    }
}

/// Finds a registered node by name.
pub fn find_node(nodes: &Vec<NodeFile>, name: &String) -> (r: Option<usize>)
    ensures
        r matches Some(i) ==> i < nodes@.len() && nodes@[i as int].name@ == name@,
        r is None <==> node_lookup(nodes@, name@) is None,
{
    let mut i: usize = 0;
    proof {
        assert(nodes@.skip(0int) =~= nodes@);
    }
    while i < nodes.len()
        invariant
            i <= nodes@.len(),
            (node_lookup(nodes@, name@) is None) == (node_lookup(nodes@.skip(i as int), name@)
                is None),
        decreases nodes@.len() - i,
    {
        if nodes[i].name == *name {
            proof {
                assert(nodes@.skip(i as int)[0] == nodes@[i as int]);
            }
            return Some(i);
        }
        proof {
            assert(nodes@.skip(i as int)[0] == nodes@[i as int]);
            assert(nodes@.skip(i as int).drop_first() =~= nodes@.skip(i + 1 as int));
        }
        i = i + 1;
    }
    proof {
        assert(nodes@.skip(nodes@.len() as int) =~= Seq::<NodeFile>::empty());
    }
    None
}

} // verus!

use vstd::prelude::*;

verus! {

/// A data node of the cluster: its id and the address it serves at.
#[derive(Debug, Clone)]
pub struct DataNode {
    pub node_id: i32,
    pub advertise_address: String,
}

impl DataNode {
    pub fn new(id: i32, address: &str) -> (n: DataNode)
        ensures
            n.node_id == id,
            n.advertise_address@ == address@,
    {
        DataNode { node_id: id, advertise_address: String::from_str(address) }
    }
}

/// A member of the placement manager cluster.
///
/// Leadership may change: on an error that says a node is not the leader, the cached
/// metadata should be updated to reflect the cluster as it is.
pub struct PlacementManagerNode {
    pub name: String,
    pub advertise_addr: String,
    pub leader: bool,
}

} // verus!

use vstd::prelude::*;

use crate::codec::text::{decimal, u64_to_decimal_string};
use crate::model::data_node::DataNode;

verus! {

/// How the cores of the machine are handed to the worker threads of a data node.
///
/// The last `concurrency` cores serve: the first of them hosts the primary worker, which
/// talks to the placement manager, and each of the others hosts one secondary worker.
pub struct CoreLayout {
    pub primary: usize,
    pub secondaries: Vec<usize>,
}

/// The core that hosts the primary worker.
pub open spec fn primary_core(cores: Seq<usize>, concurrency: int) -> usize {
    cores[cores.len() - concurrency]
}

/// The cores that host the secondary workers, in the order they are listed.
pub open spec fn secondary_cores(cores: Seq<usize>, concurrency: int) -> Seq<usize> {
    cores.subrange(cores.len() - concurrency + 1, cores.len() as int)
}

/// Picks the cores of the workers among the available ones.
///
/// A data node needs at least one core for its primary worker and cannot run more workers
/// than there are cores.
pub fn assign_cores(cores: &Vec<usize>, concurrency: usize) -> (layout: CoreLayout)
    requires
        1 <= concurrency <= cores.len(),
    ensures
        layout.primary == primary_core(cores@, concurrency as int),
        layout.secondaries@ == secondary_cores(cores@, concurrency as int),
        layout.secondaries@.len() == concurrency - 1,
{
    let n = cores.len();
    let first = n - concurrency;
    let mut secondaries: Vec<usize> = Vec::new();
    let mut i = first + 1;
    while i < n
        invariant
            first + 1 <= i <= n,
            n == cores.len(),
            first == n - concurrency,
            secondaries@ == cores@.subrange(first + 1, i as int),
        decreases n - i,
    {
        secondaries.push(cores[i]);
        i = i + 1;
    }
    CoreLayout { primary: cores[first], secondaries }
}

/// The address a data node advertises: its host, a colon and its port.
pub open spec fn advertise_address(host: Seq<char>, port: u16) -> Seq<char> {
    host + seq![':'] + decimal(port as nat)
}

/// The description of itself that the primary worker registers with the placement manager.
pub fn local_data_node(node_id: i32, host: &str, port: u16) -> (node: DataNode)
    ensures
        node.node_id == node_id,
        node.advertise_address@ == advertise_address(host@, port),
{
    let mut address = String::from_str(host);
    let colon = ":";
    proof {
        reveal_strlit(":");
    }
    address.append(colon);
    let digits = u64_to_decimal_string(port as u64);
    address.append(digits.as_str());
    DataNode { node_id, advertise_address: address }
}

} // verus!

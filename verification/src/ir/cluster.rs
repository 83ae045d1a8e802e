//! `ClusterSpec`: devices grouped into nodes, and the links between them.
//!
//! Validation is strict: device counts must agree, every link endpoint must resolve to a
//! known device, no self-links, no duplicate node or device ids.

use vstd::prelude::*;

use crate::ieee::Ieee64;
use crate::ir::error::ClusterError;

verus! {

#[derive(Debug, Clone, Copy, PartialEq, Eq, Hash, Structural)]
pub enum LinkKind {
    NvlinkGen4,
    NvlinkGen5,
    Pcie5,
    Infiniband400g,
    Roce100g,
    Tcp10g,
}

#[derive(Debug, Clone, PartialEq, Eq)]
pub struct Node {
    pub id: String,
    pub devices: Vec<String>,
    pub device_kind: String,
    pub device_memory_gb: u32,
}

#[derive(Debug, Clone, PartialEq)]
pub struct Link {
    /// Two device ids, in the order of the file; the link is undirected.
    pub endpoints: [String; 2],
    pub kind: LinkKind,
    pub bandwidth_gbps: Ieee64,
    pub latency_us: Ieee64,
}

#[derive(Debug, Clone, PartialEq)]
pub struct ClusterSpec {
    pub num_devices: u32,
    pub nodes: Vec<Node>,
    pub links: Vec<Link>,
}

/// The texts of some strings.
pub open spec fn texts(v: Seq<String>) -> Seq<Seq<char>> {
    v.map_values(|s: String| s@)
}

/// The ids of some nodes.
pub open spec fn node_ids(nodes: Seq<Node>) -> Seq<Seq<char>> {
    nodes.map_values(|n: Node| n.id@)
}

/// The device ids of some nodes, node by node.
pub open spec fn device_ids(nodes: Seq<Node>) -> Seq<Seq<char>>
    decreases nodes.len(),
{
    if nodes.len() == 0 {
        seq![]
    } else {
        device_ids(nodes.drop_last()) + texts(nodes.last().devices@)
    }
}

/// Whether a link joins two different, known devices.
pub open spec fn link_ok(link: Link, known: Seq<Seq<char>>) -> bool {
    &&& link.endpoints@[0]@ != link.endpoints@[1]@
    &&& known.contains(link.endpoints@[0]@)
    &&& known.contains(link.endpoints@[1]@)
}

/// What a valid cluster is.
pub open spec fn valid_cluster(c: ClusterSpec) -> bool {
    &&& node_ids(c.nodes@).no_duplicates()
    &&& device_ids(c.nodes@).no_duplicates()
    &&& c.num_devices == device_ids(c.nodes@).len()
    &&& forall|i: int|
        0 <= i < c.links@.len() ==> link_ok(#[trigger] c.links@[i], device_ids(c.nodes@))
}

/// A [`ClusterError`] with its ids as texts.
pub enum ClusterFault {
    DeviceCountMismatch { declared: u32, actual: u32 },
    UnknownDeviceInLink { device: Seq<char> },
    SelfLink { a: Seq<char>, b: Seq<char> },
    DuplicateDevice(Seq<char>),
    DuplicateNode(Seq<char>),
}

impl View for ClusterError {
    type V = ClusterFault;

    open spec fn view(&self) -> ClusterFault {
        match *self {
            ClusterError::DeviceCountMismatch { declared, actual } => {
                ClusterFault::DeviceCountMismatch { declared, actual }
            },
            ClusterError::UnknownDeviceInLink { device } => {
                ClusterFault::UnknownDeviceInLink { device: device@ }
            },
            ClusterError::SelfLink { a, b } => ClusterFault::SelfLink { a: a@, b: b@ },
            ClusterError::DuplicateDevice(d) => ClusterFault::DuplicateDevice(d@),
            ClusterError::DuplicateNode(n) => ClusterFault::DuplicateNode(n@),
        }
    }
}

/// The first of `devices` that occurs in `seen` or earlier among them.
pub open spec fn repeated_device(seen: Seq<Seq<char>>, devices: Seq<String>) -> Option<Seq<char>>
    decreases devices.len(),
{
    if devices.len() == 0 {
        None
    } else if repeated_device(seen, devices.drop_last()) is Some {
        repeated_device(seen, devices.drop_last())
    } else if (seen + texts(devices.drop_last())).contains(devices.last()@) {
        Some(devices.last()@)
    } else {
        None
    }
}

/// The first repetition met in walking the nodes in order: a node's id, then its
/// devices.
pub open spec fn node_fault(nodes: Seq<Node>) -> Option<ClusterFault>
    decreases nodes.len(),
{
    if nodes.len() == 0 {
        None
    } else if node_fault(nodes.drop_last()) is Some {
        node_fault(nodes.drop_last())
    } else if node_ids(nodes.drop_last()).contains(nodes.last().id@) {
        Some(ClusterFault::DuplicateNode(nodes.last().id@))
    } else {
        match repeated_device(device_ids(nodes.drop_last()), nodes.last().devices@) {
            Some(d) => Some(ClusterFault::DuplicateDevice(d)),
            None => None,
        }
    }
}

/// What is wrong with one link: it joins a device to itself, or its first or second
/// endpoint is unknown.
pub open spec fn bad_link(link: Link, known: Seq<Seq<char>>) -> Option<ClusterFault> {
    let a = link.endpoints@[0]@;
    let b = link.endpoints@[1]@;
    if a == b {
        Some(ClusterFault::SelfLink { a, b })
    } else if !known.contains(a) {
        Some(ClusterFault::UnknownDeviceInLink { device: a })
    } else if !known.contains(b) {
        Some(ClusterFault::UnknownDeviceInLink { device: b })
    } else {
        None
    }
}

/// What is wrong with the first bad link.
pub open spec fn link_fault(links: Seq<Link>, known: Seq<Seq<char>>) -> Option<ClusterFault>
    decreases links.len(),
{
    if links.len() == 0 {
        None
    } else if link_fault(links.drop_last(), known) is Some {
        link_fault(links.drop_last(), known)
    } else {
        bad_link(links.last(), known)
    }
}

/// What validation reports: the first repetition, else a wrong count, else the first
/// bad link.
pub open spec fn cluster_fault(c: ClusterSpec) -> Option<ClusterFault> {
    let known = device_ids(c.nodes@);
    if node_fault(c.nodes@) is Some {
        node_fault(c.nodes@)
    } else if c.num_devices != known.len() {
        Some(
            ClusterFault::DeviceCountMismatch {
                declared: c.num_devices,
                actual: known.len() as u32,
            },
        )
    } else {
        link_fault(c.links@, known)
    }
}

proof fn repeated_device_none(seen: Seq<Seq<char>>, devices: Seq<String>)
    requires
        seen.no_duplicates(),
    ensures
        repeated_device(seen, devices) is None <==> (seen + texts(devices)).no_duplicates(),
    decreases devices.len(),
{
    if devices.len() == 0 {
        assert(seen + texts(devices) =~= seen);
    } else {
        let front = devices.drop_last();
        let d = devices.last()@;
        let all = seen + texts(front);
        repeated_device_none(seen, front);
        assert(seen + texts(devices) =~= all.push(d));
        if (all.push(d)).no_duplicates() {
            assert forall|i: int, j: int|
                0 <= i < all.len() && 0 <= j < all.len() && i != j implies all[i] != all[j] by {
                assert(all.push(d)[i] == all[i] && all.push(d)[j] == all[j]);
            }
            if all.contains(d) {
                let k = all.index_of(d);
                assert(all.push(d)[k] == all.push(d)[all.len() as int]);
            }
        }
    }
}

proof fn node_fault_none(nodes: Seq<Node>)
    ensures
        node_fault(nodes) is None <==> node_ids(nodes).no_duplicates() && device_ids(
            nodes,
        ).no_duplicates(),
    decreases nodes.len(),
{
    if nodes.len() > 0 {
        let front = nodes.drop_last();
        let ids = node_ids(front);
        let id = nodes.last().id@;
        let seen = device_ids(front);
        let more = texts(nodes.last().devices@);
        node_fault_none(front);
        assert(node_ids(nodes) =~= ids.push(id));
        if ids.no_duplicates() && seen.no_duplicates() {
            repeated_device_none(seen, nodes.last().devices@);
        }
        if ids.push(id).no_duplicates() {
            assert forall|i: int, j: int|
                0 <= i < ids.len() && 0 <= j < ids.len() && i != j implies ids[i] != ids[j] by {
                assert(ids.push(id)[i] == ids[i] && ids.push(id)[j] == ids[j]);
            }
            if ids.contains(id) {
                let k = ids.index_of(id);
                assert(ids.push(id)[k] == ids.push(id)[ids.len() as int]);
            }
        }
        if (seen + more).no_duplicates() {
            assert forall|i: int, j: int|
                0 <= i < seen.len() && 0 <= j < seen.len() && i != j implies seen[i] != seen[j] by {
                assert((seen + more)[i] == seen[i] && (seen + more)[j] == seen[j]);
            }
        }
    }
}

proof fn link_fault_none(links: Seq<Link>, known: Seq<Seq<char>>)
    ensures
        link_fault(links, known) is None <==> forall|i: int|
            0 <= i < links.len() ==> link_ok(#[trigger] links[i], known),
    decreases links.len(),
{
    if links.len() > 0 {
        let front = links.drop_last();
        link_fault_none(front, known);
        assert(forall|i: int| 0 <= i < front.len() ==> front[i] == links[i]);
        if forall|i: int| 0 <= i < front.len() ==> link_ok(#[trigger] front[i], known) {
            assert forall|i: int|
                0 <= i < links.len() && link_ok(links.last(), known) implies link_ok(
                #[trigger] links[i],
                known,
            ) by {
                if i < front.len() {
                    assert(link_ok(front[i], known));
                }
            }
        } else {
            let i = choose|i: int| 0 <= i < front.len() && !link_ok(#[trigger] front[i], known);
            assert(!link_ok(links[i], known));
        }
    }
}

/// A cluster has a fault to report exactly when it is not valid.
pub proof fn fault_iff_invalid(c: ClusterSpec)
    ensures
        cluster_fault(c) is None <==> valid_cluster(c),
{
    node_fault_none(c.nodes@);
    link_fault_none(c.links@, device_ids(c.nodes@));
}

/// Whether an id is among those collected.
fn known_device(ids: &Vec<String>, d: &String) -> (res: bool)
    ensures
        res == texts(ids@).contains(d@),
{
    let mut i: usize = 0;
    while i < ids.len()
        invariant
            i <= ids@.len(),
            forall|j: int| 0 <= j < i ==> #[trigger] texts(ids@)[j] != d@,
        decreases ids.len() - i,
    {
        if ids[i] == *d {
            assert(texts(ids@)[i as int] == d@);
            return true;
        }
        i += 1;
    }
    false
}

impl ClusterSpec {
    /// Checks the cluster; the error is the first fault in the order nodes, count,
    /// links.
    pub fn validate(&self) -> (res: Result<(), ClusterError>)
        requires
            device_ids(self.nodes@).len() <= u32::MAX,
        ensures
            res is Ok <==> valid_cluster(*self),
            res is Err ==> Some(res->Err_0@) == cluster_fault(*self),
    {
        proof {
            fault_iff_invalid(*self);
        }
        let mut ids: Vec<String> = Vec::new();
        let mut devices: Vec<String> = Vec::new();
        let mut i: usize = 0;
        while i < self.nodes.len()
            invariant
                i <= self.nodes@.len(),
                texts(ids@) =~= node_ids(self.nodes@.take(i as int)),
                texts(devices@) =~= device_ids(self.nodes@.take(i as int)),
                node_fault(self.nodes@.take(i as int)) is None,
                cluster_fault(*self) is None <==> valid_cluster(*self),
            decreases self.nodes.len() - i,
        {
            let node = &self.nodes[i];
            let ghost before = self.nodes@.take(i as int);
            let ghost upto = self.nodes@.take(i + 1);
            assert(upto.drop_last() =~= before);
            if known_device(&ids, &node.id) {
                proof {
                    node_fault_prefix(self.nodes@, i + 1);
                }
                return Err(ClusterError::DuplicateNode(node.id.clone()));
            }
            let ghost prior = ids@;
            ids.push(node.id.clone());
            assert(texts(ids@) =~= texts(prior).push(node.id@));
            assert(node_ids(upto) =~= node_ids(before).push(node.id@));
            let ghost seen = texts(devices@);
            let mut j: usize = 0;
            while j < node.devices.len()
                invariant
                    i < self.nodes@.len(),
                    *node == self.nodes@[i as int],
                    before == self.nodes@.take(i as int),
                    upto == self.nodes@.take(i + 1),
                    upto.drop_last() == before,
                    seen == device_ids(before),
                    node_fault(before) is None,
                    !node_ids(before).contains(node.id@),
                    j <= node.devices@.len(),
                    texts(devices@) =~= seen + texts(node.devices@.take(j as int)),
                    repeated_device(seen, node.devices@.take(j as int)) is None,
                    cluster_fault(*self) is None <==> valid_cluster(*self),
                decreases node.devices.len() - j,
            {
                let d = &node.devices[j];
                assert(node.devices@.take(j + 1).drop_last() =~= node.devices@.take(j as int));
                if known_device(&devices, d) {
                    proof {
                        repeated_device_prefix(seen, node.devices@, j + 1);
                        node_fault_prefix(self.nodes@, i + 1);
                    }
                    return Err(ClusterError::DuplicateDevice(d.clone()));
                }
                let ghost prior = devices@;
                devices.push(d.clone());
                assert(texts(devices@) =~= texts(prior).push(d@));
                assert(texts(node.devices@.take(j + 1)) =~= texts(
                    node.devices@.take(j as int),
                ).push(d@));
                j += 1;
            }
            assert(node.devices@.take(j as int) =~= node.devices@);
            i += 1;
        }
        assert(self.nodes@.take(i as int) =~= self.nodes@);
        let total: u32 = devices.len() as u32;
        assert(texts(devices@).len() == devices@.len());
        if total != self.num_devices {
            return Err(
                ClusterError::DeviceCountMismatch { declared: self.num_devices, actual: total },
            );
        }
        let ghost known = device_ids(self.nodes@);
        let mut k: usize = 0;
        while k < self.links.len()
            invariant
                k <= self.links@.len(),
                texts(devices@) == known,
                known == device_ids(self.nodes@),
                node_fault(self.nodes@) is None,
                self.num_devices == known.len(),
                link_fault(self.links@.take(k as int), known) is None,
                cluster_fault(*self) is None <==> valid_cluster(*self),
            decreases self.links.len() - k,
        {
            let link = &self.links[k];
            assert(self.links@.take(k + 1).drop_last() =~= self.links@.take(k as int));
            proof {
                link_fault_prefix(self.links@, known, k + 1);
            }
            let a = &link.endpoints[0];
            let b = &link.endpoints[1];
            if *a == *b {
                return Err(ClusterError::SelfLink { a: a.clone(), b: b.clone() });
            }
            if !known_device(&devices, a) {
                return Err(ClusterError::UnknownDeviceInLink { device: a.clone() });
            }
            if !known_device(&devices, b) {
                return Err(ClusterError::UnknownDeviceInLink { device: b.clone() });
            }
            k += 1;
        }
        assert(self.links@.take(k as int) =~= self.links@);
        Ok(())
    }

    /// All device ids, node by node.
    pub fn all_devices(&self) -> (res: Vec<&str>)
        ensures
            res@.map_values(|d: &str| d@) == device_ids(self.nodes@),
    {
        let mut out: Vec<&str> = Vec::new();
        let mut i: usize = 0;
        while i < self.nodes.len()
            invariant
                i <= self.nodes@.len(),
                out@.map_values(|d: &str| d@) =~= device_ids(self.nodes@.take(i as int)),
            decreases self.nodes.len() - i,
        {
            let node = &self.nodes[i];
            let ghost seen = out@.map_values(|d: &str| d@);
            let mut j: usize = 0;
            while j < node.devices.len()
                invariant
                    j <= node.devices@.len(),
                    out@.map_values(|d: &str| d@) =~= seen + texts(node.devices@.take(j as int)),
                decreases node.devices.len() - j,
            {
                let ghost prior = out@;
                let d: &str = node.devices[j].as_str();
                out.push(d);
                assert(out@.map_values(|d: &str| d@) =~= prior.map_values(|d: &str| d@).push(d@));
                assert(texts(node.devices@.take(j + 1)) =~= texts(
                    node.devices@.take(j as int),
                ).push(d@));
                j += 1;
            }
            assert(node.devices@.take(j as int) =~= node.devices@);
            assert(self.nodes@.take(i + 1).drop_last() =~= self.nodes@.take(i as int));
            i += 1;
        }
        assert(self.nodes@.take(i as int) =~= self.nodes@);
        out
    }
}

proof fn repeated_device_prefix(seen: Seq<Seq<char>>, devices: Seq<String>, n: int)
    requires
        0 <= n <= devices.len(),
        repeated_device(seen, devices.take(n)) is Some,
    ensures
        repeated_device(seen, devices) == repeated_device(seen, devices.take(n)),
    decreases devices.len(),
{
    if n == devices.len() {
        assert(devices.take(n) =~= devices);
    } else {
        assert(devices.drop_last().take(n) =~= devices.take(n));
        repeated_device_prefix(seen, devices.drop_last(), n);
    }
}

proof fn node_fault_prefix(nodes: Seq<Node>, n: int)
    requires
        0 <= n <= nodes.len(),
    ensures
        node_fault(nodes.take(n)) is Some ==> node_fault(nodes) == node_fault(nodes.take(n)),
    decreases nodes.len(),
{
    if n == nodes.len() {
        assert(nodes.take(n) =~= nodes);
    } else {
        assert(nodes.drop_last().take(n) =~= nodes.take(n));
        node_fault_prefix(nodes.drop_last(), n);
    }
}

proof fn link_fault_prefix(links: Seq<Link>, known: Seq<Seq<char>>, n: int)
    requires
        0 <= n <= links.len(),
    ensures
        link_fault(links.take(n), known) is Some ==> link_fault(links, known) == link_fault(
            links.take(n),
            known,
        ),
    decreases links.len(),
{
    if n == links.len() {
        assert(links.take(n) =~= links);
    } else {
        assert(links.drop_last().take(n) =~= links.take(n));
        link_fault_prefix(links.drop_last(), known, n);
    }
}

proof fn devices_are_the_nodes_devices(nodes: Seq<Node>, d: Seq<char>)
    ensures
        device_ids(nodes).contains(d) <==> exists|i: int, k: int|
            #![trigger nodes[i].devices@[k]]
            0 <= i < nodes.len() && 0 <= k < nodes[i].devices@.len() && nodes[i].devices@[k]@ == d,
    decreases nodes.len(),
{
    if nodes.len() > 0 {
        let front = nodes.drop_last();
        let last = nodes.len() - 1;
        let own = texts(nodes.last().devices@);
        let before = device_ids(front);
        let now = device_ids(nodes);
        devices_are_the_nodes_devices(front, d);
        if now.contains(d) {
            let q = now.index_of(d);
            if q < before.len() {
                assert(before[q] == d);
                let (i, k) = choose|i: int, k: int|
                    #![trigger front[i].devices@[k]]
                    0 <= i < front.len() && 0 <= k < front[i].devices@.len()
                        && front[i].devices@[k]@ == d;
                assert(nodes[i].devices@[k]@ == d);
            } else {
                let k = q - before.len();
                assert(own[k] == d);
                assert(nodes[last].devices@[k]@ == d);
            }
        }
        if exists|i: int, k: int|
            #![trigger nodes[i].devices@[k]]
            0 <= i < nodes.len() && 0 <= k < nodes[i].devices@.len() && nodes[i].devices@[k]@ == d {
            let (i, k) = choose|i: int, k: int|
                #![trigger nodes[i].devices@[k]]
                0 <= i < nodes.len() && 0 <= k < nodes[i].devices@.len() && nodes[i].devices@[k]@
                    == d;
            if i < last {
                assert(front[i].devices@[k]@ == d);
                let q = before.index_of(d);
                assert(now[q] == d);
            } else {
                assert(own[k] == d);
                assert(now[before.len() + k] == d);
            }
        }
    }
}

/// Where device `k` of node `i` stands among all.
proof fn device_place(nodes: Seq<Node>, i: int, k: int) -> (p: int)
    requires
        0 <= i < nodes.len(),
        0 <= k < nodes[i].devices@.len(),
    ensures
        0 <= p < device_ids(nodes).len(),
        device_ids(nodes)[p] == nodes[i].devices@[k]@,
        i == nodes.len() - 1 ==> p == device_ids(nodes.drop_last()).len() + k,
        i < nodes.len() - 1 ==> p < device_ids(nodes.drop_last()).len(),
    decreases nodes.len(),
{
    let front = nodes.drop_last();
    if i < nodes.len() - 1 {
        let p = device_place(front, i, k);
        p
    } else {
        assert(texts(nodes.last().devices@)[k] == nodes[i].devices@[k]@);
        device_ids(front).len() + k
    }
}

proof fn places_differ(nodes: Seq<Node>, i: int, k: int, j: int, l: int)
    requires
        0 <= i < nodes.len(),
        0 <= k < nodes[i].devices@.len(),
        0 <= j < nodes.len(),
        0 <= l < nodes[j].devices@.len(),
        (i, k) != (j, l),
        device_ids(nodes).no_duplicates(),
    ensures
        nodes[i].devices@[k]@ != nodes[j].devices@[l]@,
    decreases nodes.len(),
{
    let front = nodes.drop_last();
    let last = nodes.len() - 1;
    let p = device_place(nodes, i, k);
    let q = device_place(nodes, j, l);
    if i < last && j < last {
        assert(device_ids(front).no_duplicates()) by {
            assert forall|a: int, b: int|
                0 <= a < device_ids(front).len() && 0 <= b < device_ids(front).len() && a
                    != b implies device_ids(front)[a] != device_ids(front)[b] by {
                assert(device_ids(nodes)[a] == device_ids(front)[a]);
                assert(device_ids(nodes)[b] == device_ids(front)[b]);
            }
        }
        places_differ(front, i, k, j, l);
    } else {
        assert(p != q);
    }
}

/// A cluster that is accepted is consistent: no two nodes and no two devices share an id, the
/// declared number is that of the devices, and every link joins two different devices that
/// stand in some node.
pub proof fn accepted_clusters_are_consistent(
    c: &ClusterSpec,
    res: Result<(), ClusterError>,
    i: int,
    k: int,
    j: int,
    l: int,
    m: int,
    e: int,
)
    requires
        call_ensures(ClusterSpec::validate, (c,), res),
        res is Ok,
        0 <= i < c.nodes@.len(),
        0 <= j < c.nodes@.len(),
        0 <= e < 2,
    ensures
        i != j ==> c.nodes@[i].id@ != c.nodes@[j].id@,
        0 <= k < c.nodes@[i].devices@.len() && 0 <= l < c.nodes@[j].devices@.len() && (i, k) != (
            j,
            l,
        ) ==> c.nodes@[i].devices@[k]@ != c.nodes@[j].devices@[l]@,
        c.num_devices == device_count(c.nodes@),
        0 <= m < c.links@.len() ==> {
            let ends = c.links@[m].endpoints@;
            &&& ends[0]@ != ends[1]@
            &&& exists|n: int, q: int|
                #![trigger c.nodes@[n].devices@[q]]
                0 <= n < c.nodes@.len() && 0 <= q < c.nodes@[n].devices@.len()
                    && c.nodes@[n].devices@[q]@ == ends[e]@
        },
{
    let known = device_ids(c.nodes@);
    if i != j {
        assert(node_ids(c.nodes@)[i] != node_ids(c.nodes@)[j]);
    }
    if 0 <= k < c.nodes@[i].devices@.len() && 0 <= l < c.nodes@[j].devices@.len() && (i, k) != (
        j,
        l,
    ) {
        places_differ(c.nodes@, i, k, j, l);
    }
    devices_count(c.nodes@);
    if 0 <= m < c.links@.len() {
        assert(link_ok(c.links@[m], known));
        let end = c.links@[m].endpoints@[e]@;
        assert(known.contains(end));
        devices_are_the_nodes_devices(c.nodes@, end);
    }
}

/// The number of devices of some nodes.
pub open spec fn device_count(nodes: Seq<Node>) -> nat
    decreases nodes.len(),
{
    if nodes.len() == 0 {
        0
    } else {
        device_count(nodes.drop_last()) + nodes.last().devices@.len()
    }
}

proof fn devices_count(nodes: Seq<Node>)
    ensures
        device_ids(nodes).len() == device_count(nodes),
    decreases nodes.len(),
{
    if nodes.len() > 0 {
        devices_count(nodes.drop_last());
    }
}

/// A refusal is justified: a count that is said to differ does, a link that is said to be bad
/// joins a device to itself or names one in no node, and an id that is said to occur twice
/// does.
pub proof fn refused_clusters_are_inconsistent(c: &ClusterSpec, res: Result<(), ClusterError>)
    requires
        call_ensures(ClusterSpec::validate, (c,), res),
        res is Err,
        device_count(c.nodes@) <= u32::MAX,
    ensures
        match res->Err_0 {
            ClusterError::DeviceCountMismatch { declared, actual } => declared == c.num_devices
                && actual == device_count(c.nodes@) && declared != actual,
            ClusterError::UnknownDeviceInLink { device } => exists|m: int, e: int|
                #![trigger c.links@[m].endpoints@[e]]
                0 <= m < c.links@.len() && 0 <= e < 2 && c.links@[m].endpoints@[e]@ == device@
                    && !device_ids(c.nodes@).contains(device@),
            ClusterError::SelfLink { a, b } => a@ == b@ && exists|m: int|
                0 <= m < c.links@.len() && (#[trigger] c.links@[m]).endpoints@[0]@ == a@
                    && c.links@[m].endpoints@[1]@ == a@,
            ClusterError::DuplicateDevice(d) => !device_ids(c.nodes@).no_duplicates()
                && device_ids(c.nodes@).contains(d@),
            ClusterError::DuplicateNode(n) => exists|i: int, j: int|
                0 <= i < j < c.nodes@.len() && (#[trigger] c.nodes@[i]).id@ == n@ && (
                #[trigger] c.nodes@[j]).id@ == n@,
        },
{
    let known = device_ids(c.nodes@);
    devices_count(c.nodes@);
    fault_iff_invalid(*c);
    if node_fault(c.nodes@) is Some {
        node_fault_is_real(c.nodes@);
    } else if c.num_devices == known.len() {
        link_fault_is_real(c.links@, known);
    }
}

proof fn repeated_device_is_real(seen: Seq<Seq<char>>, devices: Seq<String>)
    requires
        repeated_device(seen, devices) is Some,
    ensures
        (seen + texts(devices)).contains(repeated_device(seen, devices)->0),
        !(seen + texts(devices)).no_duplicates(),
    decreases devices.len(),
{
    let front = devices.drop_last();
    let all = seen + texts(devices);
    let before = seen + texts(front);
    assert forall|q: int| 0 <= q < before.len() implies all[q] == before[q] by {}
    assert(all[before.len() as int] == devices.last()@);
    if repeated_device(seen, front) is Some {
        repeated_device_is_real(seen, front);
        let d = repeated_device(seen, front)->0;
        let q = before.index_of(d);
        assert(all[q] == d);
        let (x, y) = choose|x: int, y: int|
            0 <= x < before.len() && 0 <= y < before.len() && x != y && before[x] == before[y];
        assert(all[x] == all[y]);
    } else {
        let q = before.index_of(devices.last()@);
        assert(all[q] == all[before.len() as int]);
    }
}

proof fn node_fault_is_real(nodes: Seq<Node>)
    requires
        node_fault(nodes) is Some,
    ensures
        match node_fault(nodes)->0 {
            ClusterFault::DuplicateDevice(d) => !device_ids(nodes).no_duplicates() && device_ids(
                nodes,
            ).contains(d),
            ClusterFault::DuplicateNode(n) => exists|i: int, j: int|
                0 <= i < j < nodes.len() && (#[trigger] nodes[i]).id@ == n && (
                #[trigger] nodes[j]).id@ == n,
            _ => false,
        },
    decreases nodes.len(),
{
    let front = nodes.drop_last();
    let last = nodes.len() - 1;
    let before = device_ids(front);
    let now = device_ids(nodes);
    if node_fault(front) is Some {
        node_fault_is_real(front);
        match node_fault(front)->0 {
            ClusterFault::DuplicateDevice(d) => {
                let q = before.index_of(d);
                assert(now[q] == d);
                let (x, y) = choose|x: int, y: int|
                    0 <= x < before.len() && 0 <= y < before.len() && x != y && before[x]
                        == before[y];
                assert(now[x] == now[y]);
            },
            ClusterFault::DuplicateNode(n) => {
                let (i, j) = choose|i: int, j: int|
                    0 <= i < j < front.len() && (#[trigger] front[i]).id@ == n && (
                    #[trigger] front[j]).id@ == n;
                assert(nodes[i].id@ == n && nodes[j].id@ == n);
            },
            _ => {},
        }
    } else if node_ids(front).contains(nodes.last().id@) {
        let i = node_ids(front).index_of(nodes.last().id@);
        assert(nodes[i].id@ == nodes[last].id@);
    } else {
        repeated_device_is_real(before, nodes.last().devices@);
    }
}

proof fn link_fault_is_real(links: Seq<Link>, known: Seq<Seq<char>>)
    requires
        link_fault(links, known) is Some,
    ensures
        match link_fault(links, known)->0 {
            ClusterFault::UnknownDeviceInLink { device } => exists|m: int, e: int|
                #![trigger links[m].endpoints@[e]]
                0 <= m < links.len() && 0 <= e < 2 && links[m].endpoints@[e]@ == device
                    && !known.contains(device),
            ClusterFault::SelfLink { a, b } => a == b && exists|m: int|
                0 <= m < links.len() && (#[trigger] links[m]).endpoints@[0]@ == a
                    && links[m].endpoints@[1]@ == a,
            _ => false,
        },
    decreases links.len(),
{
    let front = links.drop_last();
    let last = links.len() - 1;
    if link_fault(front, known) is Some {
        link_fault_is_real(front, known);
        match link_fault(front, known)->0 {
            ClusterFault::UnknownDeviceInLink { device } => {
                let (m, e) = choose|m: int, e: int|
                    #![trigger front[m].endpoints@[e]]
                    0 <= m < front.len() && 0 <= e < 2 && front[m].endpoints@[e]@ == device
                        && !known.contains(device);
                assert(links[m].endpoints@[e]@ == device);
            },
            ClusterFault::SelfLink { a, b } => {
                let m = choose|m: int|
                    0 <= m < front.len() && (#[trigger] front[m]).endpoints@[0]@ == a
                        && front[m].endpoints@[1]@ == a;
                assert(links[m].endpoints@[0]@ == a);
            },
            _ => {},
        }
    } else {
        let ends = links[last].endpoints@;
        if ends[0]@ == ends[1]@ {
        } else if !known.contains(ends[0]@) {
            assert(links[last].endpoints@[0]@ == ends[0]@);
        } else {
            assert(links[last].endpoints@[1]@ == ends[1]@);
        }
    }
}

} // verus!

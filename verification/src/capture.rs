//! The decisions of a PipeWire capture session as registry events arrive: which graph object
//! each event concerns, when our own stream's node and input ports become known, and which links
//! to create now or once those are known. The session's loop performs the returned links.
use vstd::prelude::*;

use crate::graph::{ports_off_node, Client, Graph, Input, LinkPlan, Node, NodeVerdict, Port};
use crate::idmap::{as_map, without_id};
use crate::text::str_eq;

verus! {

/// A link to create: from an application's output port into one of our stream's input ports.
#[derive(Debug, Clone, Copy, PartialEq, Eq, Structural)]
pub struct LinkRequest {
    pub output_node: u32,
    pub output_port: u32,
    pub input_node: u32,
    pub input_port: u32,
}

/// The link from `plan`'s port into input port `input` of our stream `stream`.
pub open spec fn request(plan: LinkPlan, stream: u32, input: u32) -> LinkRequest {
    LinkRequest { output_node: plan.node, output_port: plan.port, input_node: stream, input_port: input }
}

/// The links `plan` takes into our stream `stream` with inputs `left` and `right`.
pub open spec fn requests_for(plan: LinkPlan, stream: u32, left: u32, right: u32) -> Seq<LinkRequest> {
    match plan.input {
        Input::Left => seq![request(plan, stream, left)],
        Input::Right => seq![request(plan, stream, right)],
        Input::Both => seq![request(plan, stream, left), request(plan, stream, right)],
    }
}

/// One plan takes its own links.
proof fn lemma_requests_for_one(plan: LinkPlan, stream: u32, left: u32, right: u32)
    ensures
        requests_for_all(seq![plan], stream, left, right) == requests_for(plan, stream, left, right),
{
    let s = seq![plan];
    assert(s.drop_last() =~= Seq::<LinkPlan>::empty());
    assert(s.last() == plan);
    assert(requests_for_all(Seq::<LinkPlan>::empty(), stream, left, right) =~= Seq::<LinkRequest>::empty());
    assert(Seq::<LinkRequest>::empty() + requests_for(plan, stream, left, right) =~= requests_for(plan, stream, left, right));
}

/// The links every plan of `plans` takes, in order.
pub open spec fn requests_for_all(plans: Seq<LinkPlan>, stream: u32, left: u32, right: u32) -> Seq<LinkRequest>
    decreases plans.len(),
{
    if plans.len() == 0 {
        Seq::empty()
    } else {
        requests_for_all(plans.drop_last(), stream, left, right) + requests_for(plans.last(), stream, left, right)
    }
}

/// What placing one of our own stream's ports does: an input port named `FL` or `FR` takes
/// its side, and once both sides are known the plans that waited are linked.
pub open spec fn placed_own_port(
    before: CaptureLinks,
    after: CaptureLinks,
    id: u32,
    direction_out: bool,
    channel: Seq<char>,
    links: Seq<LinkRequest>,
) -> bool {
    &&& after.graph == before.graph
    &&& after.stream_node == before.stream_node
    &&& (direction_out || !(channel == "FL"@ || channel == "FR"@)) ==> after.left == before.left
        && after.right == before.right && links == Seq::<LinkRequest>::empty() && after.deferred@
        == before.deferred@
    &&& (!direction_out && channel == "FL"@) ==> after.left == Some(id) && after.right == before.right
    &&& (!direction_out && channel == "FR"@) ==> after.right == Some(id) && after.left == before.left
    &&& (!direction_out && (channel == "FL"@ || channel == "FR"@)) ==> {
        &&& (after.left is Some && after.right is Some && after.ready()) ==> links == after.links_now(
            before.deferred@,
        ) && after.deferred@ == Seq::<LinkPlan>::empty()
        &&& (after.left is Some && after.right is Some && !after.ready()) ==> links == Seq::<LinkRequest>::empty()
            && after.deferred@ == before.deferred@
        &&& !(after.left is Some && after.right is Some) ==> links == Seq::<LinkRequest>::empty()
            && after.deferred@ == before.deferred@
    }
}

/// What a capture session knows about its own stream, and the graph of everything else.
pub struct CaptureLinks {
    pub graph: Graph,
    /// Our capture stream's node id, learned from the registry once its node is seen.
    pub stream_node: Option<u32>,
    /// Our stream's left and right input ports.
    pub left: Option<u32>,
    pub right: Option<u32>,
    /// Plans that arrived before our own node and ports were known.
    pub deferred: Vec<LinkPlan>,
}

impl CaptureLinks {
    /// Whether links can be made: our node and both of its inputs are known.
    pub open spec fn ready(&self) -> bool {
        self.stream_node is Some && self.left is Some && self.right is Some
    }

    /// The links `plans` take now.
    pub open spec fn links_now(&self, plans: Seq<LinkPlan>) -> Seq<LinkRequest> {
        requests_for_all(plans, self.stream_node->0, self.left->0, self.right->0)
    }

    /// A session over `graph` that knows nothing of its own stream yet.
    pub fn new(graph: Graph) -> (c: CaptureLinks)
        ensures
            c.graph == graph,
            c.stream_node is None,
            c.left is None,
            c.right is None,
            c.deferred@ == Seq::<LinkPlan>::empty(),
    {
        CaptureLinks { graph, stream_node: None, left: None, right: None, deferred: Vec::new() }
    }

    /// The links for `plan` when they can be made now; otherwise the plan waits.
    pub fn link(&mut self, plan: LinkPlan) -> (links: Vec<LinkRequest>)
        ensures
            final(self).graph == old(self).graph,
            final(self).stream_node == old(self).stream_node,
            final(self).left == old(self).left,
            final(self).right == old(self).right,
            old(self).ready() ==> links@ == old(self).links_now(seq![plan]) && final(self).deferred@
                == old(self).deferred@,
            !old(self).ready() ==> links@ == Seq::<LinkRequest>::empty() && final(self).deferred@
                == old(self).deferred@.push(plan),
    {
        let mut links: Vec<LinkRequest> = Vec::new();
        match (self.stream_node, self.left, self.right) {
            (Some(stream), Some(left), Some(right)) => {
                let to_left = LinkRequest { output_node: plan.node, output_port: plan.port, input_node: stream, input_port: left };
                let to_right = LinkRequest { output_node: plan.node, output_port: plan.port, input_node: stream, input_port: right };
                match plan.input {
                    Input::Left => links.push(to_left),
                    Input::Right => links.push(to_right),
                    Input::Both => {
                        links.push(to_left);
                        links.push(to_right);
                    },
                }
                proof {
                    lemma_requests_for_one(plan, stream, left, right);
                    assert(links@ =~= requests_for(plan, stream, left, right));
                }
            },
            _ => {
                self.deferred.push(plan);
            },
        }
        links
    }

    /// Links every plan of `plans` in order, each now or deferred.
    fn link_all(&mut self, plans: Vec<LinkPlan>) -> (links: Vec<LinkRequest>)
        ensures
            final(self).graph == old(self).graph,
            final(self).stream_node == old(self).stream_node,
            final(self).left == old(self).left,
            final(self).right == old(self).right,
            old(self).ready() ==> links@ == old(self).links_now(plans@) && final(self).deferred@
                == old(self).deferred@,
            !old(self).ready() ==> links@ == Seq::<LinkRequest>::empty() && final(self).deferred@
                == old(self).deferred@ + plans@,
    {
        let mut links: Vec<LinkRequest> = Vec::new();
        let mut i: usize = 0;
        let ghost start_deferred = self.deferred@;
        proof {
            assert(plans@.take(0) =~= Seq::<LinkPlan>::empty());
            assert(start_deferred + plans@.take(0) =~= start_deferred);
        }
        while i < plans.len()
            invariant
                i <= plans@.len(),
                self.graph == old(self).graph,
                self.stream_node == old(self).stream_node,
                self.left == old(self).left,
                self.right == old(self).right,
                start_deferred == old(self).deferred@,
                old(self).ready() ==> links@ == old(self).links_now(plans@.take(i as int)) && self.deferred@ == start_deferred,
                !old(self).ready() ==> links@ == Seq::<LinkRequest>::empty() && self.deferred@ == start_deferred + plans@.take(i as int),
            decreases plans@.len() - i,
        {
            let mut more = self.link(plans[i]);
            proof {
                let t = plans@.take(i + 1);
                assert(t.drop_last() =~= plans@.take(i as int));
                assert(t.last() == plans@[i as int]);
                assert(seq![plans@[i as int]].drop_last() =~= Seq::<LinkPlan>::empty());
                assert(start_deferred + t =~= (start_deferred + plans@.take(i as int)).push(plans@[i as int]));
            }
            let ghost before = links@;
            let ghost added = more@;
            links.append(&mut more);
            proof {
                lemma_requests_for_one(plans@[i as int], self.stream_node->0, self.left->0, self.right->0);
                assert(links@ =~= before + added);
            }
            i = i + 1;
        }
        proof {
            assert(plans@.take(plans@.len() as int) =~= plans@);
        }
        links
    }

    /// A Client global was announced.
    pub fn on_client(&mut self, id: u32, client: Client)
        requires
            old(self).graph.wf(),
        ensures
            final(self).graph.wf(),
            final(self).graph.clients_map() == old(self).graph.clients_map().insert(id, client),
            final(self).graph.node_entries() == old(self).graph.node_entries(),
            final(self).graph.port_entries() == old(self).graph.port_entries(),
            final(self).graph.own_pid() == old(self).graph.own_pid(),
            final(self).graph.own_key() == old(self).graph.own_key(),
            final(self).graph.carried() == old(self).graph.carried(),
            final(self).stream_node == old(self).stream_node,
            final(self).left == old(self).left,
            final(self).right == old(self).right,
            final(self).deferred@ == old(self).deferred@,
    {
        self.graph.add_client(id, client);
    }

    /// A Node global was announced: our own stream's node is remembered, and a tracked
    /// application node links the ports that arrived before it. Returns the verdict and the
    /// links to create now.
    pub fn on_node(&mut self, node: Node) -> (r: (NodeVerdict, Vec<LinkRequest>))
        requires
            old(self).graph.wf(),
        ensures
            final(self).graph.wf(),
            r.0 == old(self).graph.verdict_for(node),
            r.0 == NodeVerdict::Own ==> final(self).stream_node == Some(node.id) && r.1@ == Seq::<LinkRequest>::empty()
                && final(self).deferred@ == old(self).deferred@,
            r.0 != NodeVerdict::Own ==> final(self).stream_node == old(self).stream_node,
            r.0 == NodeVerdict::Linked ==> {
                let plans = final(self).graph.plans_for_node(final(self).graph.port_entries(), node.id);
                &&& old(self).ready() ==> r.1@ == old(self).links_now(plans) && final(self).deferred@ == old(self).deferred@
                &&& !old(self).ready() ==> r.1@ == Seq::<LinkRequest>::empty() && final(self).deferred@
                    == old(self).deferred@ + plans
            },
            r.0 != NodeVerdict::Own && r.0 != NodeVerdict::Linked ==> r.1@ == Seq::<LinkRequest>::empty()
                && final(self).deferred@ == old(self).deferred@,
            final(self).left == old(self).left,
            final(self).right == old(self).right,
            r.0 == NodeVerdict::Linked ==> as_map(final(self).graph.node_entries()) == as_map(
                old(self).graph.node_entries(),
            ).insert(node.id, node),
            r.0 != NodeVerdict::Linked ==> final(self).graph.node_entries() == old(self).graph.node_entries(),
            final(self).graph.port_entries() == old(self).graph.port_entries(),
            final(self).graph.clients_map() == old(self).graph.clients_map(),
            final(self).graph.own_pid() == old(self).graph.own_pid(),
            final(self).graph.own_key() == old(self).graph.own_key(),
            final(self).graph.carried() == old(self).graph.carried(),
    {
        let id = node.id;
        let verdict = self.graph.add_node(node);
        match verdict {
            NodeVerdict::Own => {
                self.stream_node = Some(id);
                (verdict, Vec::new())
            },
            NodeVerdict::Linked => {
                let plans = self.graph.pending_links(id);
                proof {
                    assert(self.graph.port_entries() == old(self).graph.port_entries());
                }
                let links = self.link_all(plans);
                (verdict, links)
            },
            _ => (verdict, Vec::new()),
        }
    }

    /// One of our own stream's ports was announced: an input port takes its place on the left
    /// or the right, and once both are known the deferred plans are linked.
    pub fn own_port(&mut self, id: u32, direction_out: bool, channel: &str) -> (links: Vec<LinkRequest>)
        ensures
            placed_own_port(*old(self), *final(self), id, direction_out, channel@, links@),
    {
        if direction_out {
            return Vec::new();
        }
        proof {
            reveal_strlit("FL");
            reveal_strlit("FR");
            assert("FL"@[1] != "FR"@[1]);
            assert("FL"@ != "FR"@);
        }
        if str_eq(channel, "FL") {
            self.left = Some(id);
        } else if str_eq(channel, "FR") {
            self.right = Some(id);
        } else {
            return Vec::new();
        }
        if self.left.is_some() && self.right.is_some() {
            let mut waiting: Vec<LinkPlan> = Vec::new();
            std::mem::swap(&mut waiting, &mut self.deferred);
            proof {
                assert(self.deferred@ + waiting@ =~= waiting@);
            }
            self.link_all(waiting)
        } else {
            Vec::new()
        }
    }

    /// A Port global was announced: a port of our own stream is placed, any other port is
    /// recorded and linked when its node is tracked.
    pub fn on_port(&mut self, port: Port) -> (links: Vec<LinkRequest>)
        requires
            old(self).graph.wf(),
        ensures
            final(self).graph.wf(),
            final(self).stream_node == old(self).stream_node,
            old(self).stream_node == Some(port.node) ==> placed_own_port(*old(self), *final(self), port.id, port.direction_out, port.channel@, links@),
            old(self).stream_node != Some(port.node) ==> {
                &&& final(self).left == old(self).left
                &&& final(self).right == old(self).right
                &&& !port.direction_out ==> final(self).graph.port_entries() == old(self).graph.port_entries()
                &&& port.direction_out ==> as_map(final(self).graph.port_entries()) == as_map(
                    old(self).graph.port_entries(),
                ).insert(port.id, port)
                &&& final(self).graph.node_entries() == old(self).graph.node_entries()
                &&& final(self).graph.clients_map() == old(self).graph.clients_map()
                &&& final(self).graph.own_pid() == old(self).graph.own_pid()
                &&& final(self).graph.own_key() == old(self).graph.own_key()
                &&& final(self).graph.carried() == old(self).graph.carried()
                &&& match old(self).graph.plan_for(port) {
                    Some(plan) if port.direction_out => {
                        &&& old(self).ready() ==> links@ == old(self).links_now(seq![plan]) && final(self).deferred@
                            == old(self).deferred@
                        &&& !old(self).ready() ==> links@ == Seq::<LinkRequest>::empty() && final(self).deferred@
                            == old(self).deferred@.push(plan)
                    },
                    _ => links@ == Seq::<LinkRequest>::empty() && final(self).deferred@ == old(self).deferred@,
                }
            },
    {
        let is_own = match self.stream_node {
            Some(stream) => stream == port.node,
            None => false,
        };
        if is_own {
            return self.own_port(port.id, port.direction_out, port.channel.as_str());
        }
        match self.graph.add_port(port) {
            Some(plan) => self.link(plan),
            None => Vec::new(),
        }
    }

    /// A global was removed.
    pub fn on_remove(&mut self, id: u32)
        requires
            old(self).graph.wf(),
        ensures
            final(self).graph.wf(),
            final(self).graph.node_entries() == without_id(old(self).graph.node_entries(), id),
            final(self).graph.port_entries() == ports_off_node(without_id(old(self).graph.port_entries(), id), id),
            final(self).graph.clients_map() == old(self).graph.clients_map().remove(id),
            final(self).graph.own_pid() == old(self).graph.own_pid(),
            final(self).graph.own_key() == old(self).graph.own_key(),
            final(self).graph.carried() == old(self).graph.carried(),
            final(self).stream_node == old(self).stream_node,
            final(self).left == old(self).left,
            final(self).right == old(self).right,
            final(self).deferred@ == old(self).deferred@,
    {
        self.graph.remove(id);
    }
}

} // verus!

//! Which PipeWire objects to link: application output nodes, minus brp's own, port by channel.
//! Pure bookkeeping, so every decision is checked without a server.
use vstd::prelude::*;

use crate::idmap::{as_map, has_id, ids_increase, lemma_filter_removes_one, lemma_value_at_index, lemma_without_id_from, without_id, IdMap};
use crate::selection::{AppKey, AudioSelection, AudioSource, key_text};
use crate::text::{compare_str, lemma_text_lt_irreflexive, lemma_text_lt_transitive, str_eq, text_lt, Order};

verus! {

/// The media class of an application's playback stream.
pub const APP_OUTPUT_CLASS: &'static str = "Stream/Output/Audio";

/// The `node.name` our own capture stream registers under.
pub const OWN_STREAM_NAME: &'static str = "brp-audio-capture";

/// A node global: its id, class, name, and the `client.id` it names.
#[derive(Debug, Clone, PartialEq, Eq)]
pub struct Node {
    pub id: u32,
    pub media_class: String,
    pub name: Option<String>,
    /// The `client.id` property; resolved to a pid through [`Graph::add_client`].
    pub client: Option<u32>,
}

/// A port global: its id, its node, its direction, and its audio channel.
#[derive(Debug, Clone, PartialEq, Eq)]
pub struct Port {
    pub id: u32,
    pub node: u32,
    pub direction_out: bool,
    pub channel: String,
}

/// What a Client global says about the process behind the nodes that name it.
#[derive(Debug, Clone, PartialEq, Eq)]
pub struct Client {
    /// The client's kernel-verified pid (`pipewire.sec.pid`).
    pub pid: Option<u32>,
    /// `application.process.binary`, or the basename of the process's executable. `None` when
    /// neither is available, which fails closed under a selection.
    pub key: Option<AppKey>,
    /// `application.name`, the friendly label the picker shows.
    pub label: Option<String>,
}

impl Default for Client {
    fn default() -> (c: Client)
        ensures
            c.pid is None,
            c.key is None,
            c.label is None,
    {
        Client { pid: None, key: None, label: None }
    }
}

/// Which of our two capture inputs a port feeds.
#[derive(Debug, Clone, Copy, PartialEq, Eq, Structural)]
pub enum Input {
    Left,
    Right,
    Both,
}

/// A link to make: this output port of this node into that input.
#[derive(Debug, Clone, Copy, PartialEq, Eq, Structural)]
pub struct LinkPlan {
    pub port: u32,
    pub node: u32,
    pub input: Input,
}

/// What a newly seen node means for capture.
#[derive(Debug, Clone, Copy, PartialEq, Eq, Structural)]
pub enum NodeVerdict {
    /// Our own capture stream: matched by name and by the pid resolved through its client.
    Own,
    /// An application output node from another process; tracked, its ports link as they arrive.
    Linked,
    /// An application output node whose owning pid could not be resolved. Left unlinked: missing
    /// a participant's audio is safer than looping our own back in on an unverified guess.
    Unresolved,
    /// Not an application output node, or one of our own excluded by pid or by binary.
    Ignored,
    /// An application output node whose identity the selection does not admit.
    NotSelected,
}

/// The optional text of an optional string.
pub open spec fn opt_text(s: Option<String>) -> Option<Seq<char>> {
    match s {
        Some(t) => Some(t@),
        None => None,
    }
}

/// The key text of a client's optional key.
pub open spec fn client_key(c: Client) -> Option<Seq<char>> {
    match c.key {
        Some(k) => Some(k@),
        None => None,
    }
}

/// The row label for an identity: the client's own name when it has a non-empty one, else the
/// identity itself.
pub open spec fn row_label(label: Option<String>, key: Seq<char>) -> Seq<char> {
    match label {
        Some(l) => if l@.len() > 0 { l@ } else { key },
        None => key,
    }
}

/// The input a channel feeds, if any.
pub open spec fn channel_input(channel: Seq<char>) -> Option<Input> {
    if channel == "FL"@ {
        Some(Input::Left)
    } else if channel == "FR"@ {
        Some(Input::Right)
    } else if channel == "MONO"@ {
        Some(Input::Both)
    } else {
        None
    }
}

/// Whether `entries` are keyed by the node id each entry holds.
pub open spec fn keyed_by_node_id(entries: Seq<(u32, Node)>) -> bool {
    forall|i: int| 0 <= i < entries.len() ==> (#[trigger] entries[i]).0 == entries[i].1.id
}

/// Whether `entries` are keyed by the port id each entry holds.
pub open spec fn keyed_by_port_id(entries: Seq<(u32, Port)>) -> bool {
    forall|i: int| 0 <= i < entries.len() ==> (#[trigger] entries[i]).0 == entries[i].1.id
}

/// The identity of a contributed row.
pub open spec fn row_key(c: Option<(Seq<char>, Seq<char>)>) -> Seq<char> {
    let row = c->0;
    row.0
}

/// Whether the row for `key` first appears at `i` of `cs`.
pub open spec fn first_with_key(
    cs: Seq<Option<(Seq<char>, Seq<char>)>>,
    i: int,
    key: Seq<char>,
) -> bool {
    &&& 0 <= i < cs.len()
    &&& cs[i] is Some
    &&& row_key(cs[i]) == key
    &&& forall|j: int| 0 <= j < i ==> !(cs[j] is Some && row_key(#[trigger] cs[j]) == key)
}

/// `row` is the first row `cs` contributes for its identity.
pub open spec fn listed_first(cs: Seq<Option<(Seq<char>, Seq<char>)>>, row: (Seq<char>, Seq<char>)) -> bool {
    exists|i: int| #[trigger] first_with_key(cs, i, row.0) && cs[i]->0 == row
}

/// `rows` lists the identities of `cs` collapsed: each identity once, in text order, with the
/// label of its first appearance in `cs`.
pub open spec fn collapsed_listing(
    rows: Seq<(Seq<char>, Seq<char>)>,
    cs: Seq<Option<(Seq<char>, Seq<char>)>>,
) -> bool {
    &&& forall|a: int, b: int| 0 <= a < b < rows.len() ==> text_lt(#[trigger] rows[a].0, #[trigger] rows[b].0)
    &&& forall|m: int| 0 <= m < rows.len() ==> #[trigger] listed_first(cs, rows[m])
    &&& forall|i: int| 0 <= i < cs.len() && (#[trigger] cs[i]) is Some ==> exists|m: int| 0 <= m < rows.len() && (#[trigger] rows[m]).0 == row_key(cs[i])
}

/// The rows that a list of sources shows.
pub open spec fn source_rows(s: Seq<AudioSource>) -> Seq<(Seq<char>, Seq<char>)> {
    s.map_values(|x: AudioSource| (x.key@, x.label@))
}

/// The PipeWire graph as far as capture cares: the clients seen, the application output nodes
/// tracked for linking, and every output port seen, keyed by id.
pub struct Graph {
    own_process_id: u32,
    /// brp's own executable identity, excluded in both modes.
    own_binary: AppKey,
    selection: AudioSelection,
    clients: IdMap<Client>,
    /// Application output nodes that are not ours and are selected.
    nodes: IdMap<Node>,
    /// Every output port seen; ports can arrive before their node.
    ports: IdMap<Port>,
}

impl Graph {
    /// Our own process id.
    pub closed spec fn own_pid(&self) -> u32 {
        self.own_process_id
    }

    /// Our own executable identity.
    pub closed spec fn own_key(&self) -> Seq<char> {
        self.own_binary@
    }

    /// The selection this session carries.
    pub closed spec fn carried(&self) -> AudioSelection {
        self.selection
    }

    /// The clients seen, by `client.id`.
    pub closed spec fn clients_map(&self) -> Map<u32, Client> {
        self.clients.map()
    }

    /// The tracked nodes, in id order.
    pub closed spec fn node_entries(&self) -> Seq<(u32, Node)> {
        self.nodes@
    }

    /// The output ports seen, in id order.
    pub closed spec fn port_entries(&self) -> Seq<(u32, Port)> {
        self.ports@
    }

    /// Internal consistency the public invariant rests on.
    pub closed spec fn tables_wf(&self) -> bool {
        &&& self.clients.wf()
        &&& self.nodes.wf()
        &&& self.ports.wf()
        &&& self.selection.wf()
    }

    /// The graph's invariant: both tables in id order, each entry keyed by its own id.
    pub open spec fn wf(&self) -> bool {
        &&& self.tables_wf()
        &&& ids_increase(self.node_entries())
        &&& ids_increase(self.port_entries())
        &&& keyed_by_node_id(self.node_entries())
        &&& keyed_by_port_id(self.port_entries())
        &&& self.carried().wf()
    }

    /// The client a node names, when it is known.
    pub open spec fn client_of(&self, client: Option<u32>) -> Option<Client> {
        match client {
            Some(id) => if self.clients_map().contains_key(id) {
                Some(self.clients_map()[id])
            } else {
                None
            },
            None => None,
        }
    }

    /// The verdict for `node` in this graph.
    pub open spec fn verdict_for(&self, node: Node) -> NodeVerdict {
        let client = self.client_of(node.client);
        let pid = match client {
            Some(c) => c.pid,
            None => None,
        };
        let key = match client {
            Some(c) => client_key(c),
            None => None,
        };
        if opt_text(node.name) == Some(OWN_STREAM_NAME@) && pid == Some(self.own_pid()) {
            NodeVerdict::Own
        } else if node.media_class@ != APP_OUTPUT_CLASS@ {
            NodeVerdict::Ignored
        } else if pid == Some(self.own_pid()) || key == Some(self.own_key()) {
            NodeVerdict::Ignored
        } else if pid is None {
            NodeVerdict::Unresolved
        } else if !self.carried().admits_text(key) {
            NodeVerdict::NotSelected
        } else {
            NodeVerdict::Linked
        }
    }

    /// The link a port asks for now: one exists when its node is tracked and its channel is one
    /// we capture.
    pub open spec fn plan_for(&self, port: Port) -> Option<LinkPlan> {
        if !has_id(self.node_entries(), port.node) {
            None
        } else {
            match channel_input(port.channel@) {
                Some(input) => Some(LinkPlan { port: port.id, node: port.node, input }),
                None => None,
            }
        }
    }

    /// The plans for the ports of `entries` that belong to `node`, in order.
    pub open spec fn plans_for_node(&self, entries: Seq<(u32, Port)>, node: u32) -> Seq<LinkPlan>
        decreases entries.len(),
    {
        if entries.len() == 0 {
            Seq::empty()
        } else {
            let rest = self.plans_for_node(entries.drop_last(), node);
            let port = entries.last().1;
            if port.node == node && self.plan_for(port) is Some {
                rest.push(self.plan_for(port)->0)
            } else {
                rest
            }
        }
    }

    /// The source row a tracked node contributes: its client's identity and label, when its
    /// client is known and has an identity.
    pub open spec fn contribution(&self, node: Node) -> Option<(Seq<char>, Seq<char>)> {
        match self.client_of(node.client) {
            Some(c) => match c.key {
                Some(k) => Some((k@, row_label(c.label, k@))),
                None => None,
            },
            None => None,
        }
    }

    /// The contributions of the tracked nodes, in id order.
    pub open spec fn contributions(&self) -> Seq<Option<(Seq<char>, Seq<char>)>> {
        self.node_entries().map_values(|e: (u32, Node)| self.contribution(e.1))
    }

    /// Whether this graph is `before` with the object `id` forgotten: the node `id`, every port
    /// that is `id` or belongs to node `id`, and the client `id`.
    pub open spec fn removes(&self, before: Graph, id: u32) -> bool {
        &&& self.wf()
        &&& self.node_entries() == without_id(before.node_entries(), id)
        &&& self.port_entries() == ports_off_node(without_id(before.port_entries(), id), id)
        &&& self.clients_map() == before.clients_map().remove(id)
        &&& self.own_pid() == before.own_pid()
        &&& self.own_key() == before.own_key()
        &&& self.carried() == before.carried()
    }

    /// An empty graph for a session that carries `selection`, run by process `own_process_id`
    /// from the executable `own_binary`.
    pub fn new(own_process_id: u32, own_binary: AppKey, selection: AudioSelection) -> (g: Graph)
        requires
            selection.wf(),
        ensures
            g.wf(),
            g.own_pid() == own_process_id,
            g.own_key() == own_binary@,
            g.carried() == selection,
            g.clients_map() == Map::<u32, Client>::empty(),
            g.node_entries() == Seq::<(u32, Node)>::empty(),
            g.port_entries() == Seq::<(u32, Port)>::empty(),
    {
        let g = Graph {
            own_process_id,
            own_binary,
            selection,
            clients: IdMap::new(),
            nodes: IdMap::new(),
            ports: IdMap::new(),
        };
        assert(g.clients_map() =~= Map::<u32, Client>::empty());
        g
    }

    /// Records what a Client global reported, replacing an earlier report under the same id. A
    /// client with no resolvable pid leaves the nodes it owns `Unresolved`.
    pub fn add_client(&mut self, id: u32, client: Client)
        requires
            old(self).wf(),
        ensures
            final(self).wf(),
            final(self).clients_map() == old(self).clients_map().insert(id, client),
            final(self).node_entries() == old(self).node_entries(),
            final(self).port_entries() == old(self).port_entries(),
            final(self).own_pid() == old(self).own_pid(),
            final(self).own_key() == old(self).own_key(),
            final(self).carried() == old(self).carried(),
    {
        self.clients.insert(id, client);
    }

    /// Classifies a node and, when it is a foreign application output this session carries,
    /// tracks it for linking.
    pub fn add_node(&mut self, node: Node) -> (v: NodeVerdict)
        requires
            old(self).wf(),
        ensures
            final(self).wf(),
            v == old(self).verdict_for(node),
            v == NodeVerdict::Linked ==> as_map(final(self).node_entries()) == as_map(
                old(self).node_entries(),
            ).insert(node.id, node),
            v != NodeVerdict::Linked ==> final(self).node_entries() == old(self).node_entries(),
            final(self).clients_map() == old(self).clients_map(),
            final(self).port_entries() == old(self).port_entries(),
            final(self).own_pid() == old(self).own_pid(),
            final(self).own_key() == old(self).own_key(),
            final(self).carried() == old(self).carried(),
    {
        let mut pid: Option<u32> = None;
        let mut key_is_own = false;
        let mut admitted = self.selection.admits(None);
        let ghost client = self.client_of(node.client);
        match node.client {
            Some(id) => match self.clients.get(id) {
                Some(c) => {
                    pid = c.pid;
                    match &c.key {
                        Some(k) => {
                            key_is_own = k.same(&self.own_binary);
                            admitted = self.selection.admits(Some(k));
                        },
                        None => {},
                    }
                },
                None => {},
            },
            None => {},
        }
        let named_own = match &node.name {
            Some(name) => str_eq(name.as_str(), OWN_STREAM_NAME),
            None => false,
        };
        let app_output = str_eq(node.media_class.as_str(), APP_OUTPUT_CLASS);
        let own_pid = match pid {
            Some(p) => p == self.own_process_id,
            None => false,
        };
        if named_own && own_pid {
            return NodeVerdict::Own;
        }
        if !app_output {
            return NodeVerdict::Ignored;
        }
        if own_pid || key_is_own {
            return NodeVerdict::Ignored;
        }
        if pid.is_none() {
            return NodeVerdict::Unresolved;
        }
        if !admitted {
            return NodeVerdict::NotSelected;
        }
        let ghost before = self.nodes@;
        let id = node.id;
        self.nodes.insert(id, node);
        proof {
            lemma_insert_keeps_keying(before, self.nodes@, id, node);
        }
        NodeVerdict::Linked
    }

    /// The link to make for `port` now, if its node is already tracked.
    fn plan(&self, port: &Port) -> (p: Option<LinkPlan>)
        requires
            self.wf(),
        ensures
            p == self.plan_for(*port),
    {
        if !self.nodes.contains(port.node) {
            return None;
        }
        let channel = port.channel.as_str();
        let input = if str_eq(channel, "FL") {
            Input::Left
        } else if str_eq(channel, "FR") {
            Input::Right
        } else if str_eq(channel, "MONO") {
            Input::Both
        } else {
            return None;
        };
        Some(LinkPlan { port: port.id, node: port.node, input })
    }

    /// Records an output port and returns the link to make for it now, if its node is already
    /// tracked. Input ports are not recorded.
    pub fn add_port(&mut self, port: Port) -> (p: Option<LinkPlan>)
        requires
            old(self).wf(),
        ensures
            final(self).wf(),
            !port.direction_out ==> p is None && final(self).port_entries() == old(self).port_entries(),
            port.direction_out ==> p == old(self).plan_for(port) && as_map(final(self).port_entries())
                == as_map(old(self).port_entries()).insert(port.id, port),
            final(self).clients_map() == old(self).clients_map(),
            final(self).node_entries() == old(self).node_entries(),
            final(self).own_pid() == old(self).own_pid(),
            final(self).own_key() == old(self).own_key(),
            final(self).carried() == old(self).carried(),
    {
        if !port.direction_out {
            return None;
        }
        let plan = self.plan(&port);
        let ghost before = self.ports@;
        let id = port.id;
        self.ports.insert(id, port);
        proof {
            lemma_insert_keeps_port_keying(before, self.ports@, id, port);
        }
        plan
    }

    /// The port at position `i` in id order, found by its id in `ids`.
    fn port_at(&self, ids: &Vec<u32>, i: usize) -> (p: &Port)
        requires
            self.wf(),
            ids@.len() == self.port_entries().len(),
            forall|j: int| 0 <= j < ids@.len() ==> ids@[j] == (#[trigger] self.port_entries()[j]).0,
            i < ids@.len(),
        ensures
            *p == self.port_entries()[i as int].1,
    {
        proof {
            lemma_value_at_index(self.port_entries(), i as int);
        }
        self.ports.get(ids[i]).unwrap()
    }

    /// The tracked node at position `i` in id order, found by its id in `ids`.
    fn node_at(&self, ids: &Vec<u32>, i: usize) -> (n: &Node)
        requires
            self.wf(),
            ids@.len() == self.node_entries().len(),
            forall|j: int| 0 <= j < ids@.len() ==> ids@[j] == (#[trigger] self.node_entries()[j]).0,
            i < ids@.len(),
        ensures
            *n == self.node_entries()[i as int].1,
    {
        proof {
            lemma_value_at_index(self.node_entries(), i as int);
        }
        self.nodes.get(ids[i]).unwrap()
    }

    /// Links for ports that arrived before their node did: the plans of `node`'s recorded ports,
    /// in port id order.
    pub fn pending_links(&self, node: u32) -> (plans: Vec<LinkPlan>)
        requires
            self.wf(),
        ensures
            plans@ == self.plans_for_node(self.port_entries(), node),
            forall|i: int| 0 <= i < self.port_entries().len() && (#[trigger] self.port_entries()[i]).1.node == node
                && self.plan_for(self.port_entries()[i].1) is Some ==> plans@.contains(
                self.plan_for(self.port_entries()[i].1)->0,
            ),
            forall|p: LinkPlan| #[trigger] plans@.contains(p) ==> exists|i: int| 0 <= i < self.port_entries().len()
                && (#[trigger] self.port_entries()[i]).1.node == node && self.plan_for(self.port_entries()[i].1)
                == Some(p),
            forall|a: int, b: int| 0 <= a < b < plans@.len() ==> (#[trigger] plans@[a]).port < (#[trigger] plans@[b]).port,
    {
        let mut plans: Vec<LinkPlan> = Vec::new();
        let ids = self.ports.ids();
        let n = ids.len();
        let mut i: usize = 0;
        assert(self.port_entries().take(0) =~= Seq::<(u32, Port)>::empty());
        while i < n
            invariant
                self.wf(),
                n == self.port_entries().len(),
                n == ids@.len(),
                forall|j: int| 0 <= j < n ==> ids@[j] == (#[trigger] self.port_entries()[j]).0,
                i <= n,
                plans@ == self.plans_for_node(self.port_entries().take(i as int), node),
            decreases n - i,
        {
            let port = self.port_at(&ids, i);
            assert(self.port_entries().take(i + 1).drop_last() =~= self.port_entries().take(i as int));
            if port.node == node {
                match self.plan(port) {
                    Some(plan) => plans.push(plan),
                    None => {},
                }
            }
            i = i + 1;
        }
        assert(self.port_entries().take(n as int) =~= self.port_entries());
        proof {
            self.lemma_plans_for_node(self.port_entries(), node);
        }
        plans
    }

    /// The row a node contributes, computed.
    fn row_of(&self, node: &Node) -> (r: Option<(AppKey, String)>)
        requires
            self.wf(),
        ensures
            match r {
                Some(row) => self.contribution(*node) == Some((row.0@, row.1@)),
                None => self.contribution(*node) is None,
            },
    {
        let id = match node.client {
            Some(id) => id,
            None => return None,
        };
        let client = match self.clients.get(id) {
            Some(c) => c,
            None => return None,
        };
        let key = match &client.key {
            Some(k) => k,
            None => return None,
        };
        let label = match &client.label {
            Some(l) => if l.as_str().unicode_len() > 0 {
                l.clone()
            } else {
                key.as_str().to_owned()
            },
            None => key.as_str().to_owned(),
        };
        Some((key.copy(), label))
    }

    /// The applications behind the tracked nodes, collapsed by identity: one row per identity,
    /// in identity order, labelled as the first node (in id order) with that identity labels it.
    /// A node whose client is unknown or has no identity cannot be a row.
    pub fn sources(&self) -> (rows: Vec<AudioSource>)
        requires
            self.wf(),
        ensures
            collapsed_listing(source_rows(rows@), self.contributions()),
    {
        let mut rows: Vec<AudioSource> = Vec::new();
        let ids = self.nodes.ids();
        let n = ids.len();
        let ghost cs = self.contributions();
        let mut i: usize = 0;
        assert(cs.take(0) =~= Seq::<Option<(Seq<char>, Seq<char>)>>::empty());
        while i < n
            invariant
                self.wf(),
                n == self.node_entries().len(),
                n == ids@.len(),
                forall|j: int| 0 <= j < n ==> ids@[j] == (#[trigger] self.node_entries()[j]).0,
                cs == self.contributions(),
                cs.len() == n,
                i <= n,
                collapsed_listing(source_rows(rows@), cs.take(i as int)),
            decreases n - i,
        {
            let node = self.node_at(&ids, i);
            let row = self.row_of(node);
            let ghost pre = cs.take(i as int);
            let ghost post = cs.take(i + 1);
            assert(post =~= pre.push(cs[i as int]));
            assert(cs[i as int] == self.contribution(self.node_entries()[i as int].1));
            match row {
                None => {
                    proof {
                        lemma_listing_extend_none(source_rows(rows@), pre, cs[i as int]);
                    }
                },
                Some((key, label)) => {
                    let ghost old_rows = source_rows(rows@);
                    let ghost c = (key@, label@);
                    let (pos, found) = find_row(&rows, &key);
                    if found {
                        proof {
                            lemma_listing_extend_present(old_rows, pre, c, pos as int);
                        }
                    } else {
                        rows.insert(pos, AudioSource { key, label });
                        proof {
                            assert(source_rows(rows@) =~= old_rows.insert(pos as int, c));
                            lemma_listing_extend_new(old_rows, pre, c, pos as int);
                        }
                    }
                },
            }
            i = i + 1;
        }
        assert(cs.take(n as int) =~= cs);
        rows
    }

    /// Forgets the object with this id: as a node (and every port of it), as a port, and as a
    /// client.
    pub fn remove(&mut self, id: u32)
        requires
            old(self).wf(),
        ensures
            final(self).removes(*old(self), id),
    {
        let ghost nodes_before = self.nodes@;
        self.nodes.remove(id);
        let ghost ports_before = self.ports@;
        self.ports.remove(id);
        let ghost ports_mid = self.ports@;
        let ids = self.ports.ids();
        let n = ids.len();
        let mut i: usize = 0;
        assert(ports_mid.take(0) =~= Seq::<(u32, Port)>::empty());
        assert(ports_mid.skip(0) =~= ports_mid);
        while i < n
            invariant
                n == ports_mid.len(),
                n == ids@.len(),
                forall|j: int| 0 <= j < n ==> ids@[j] == (#[trigger] ports_mid[j]).0,
                i <= n,
                self.ports.wf(),
                self.ports@ == ports_off_node(ports_mid.take(i as int), id) + ports_mid.skip(i as int),
                ports_mid == without_id(ports_before, id),
                self.nodes.wf(),
                self.nodes@ == without_id(nodes_before, id),
                self.clients@ == old(self).clients@,
                self.own_process_id == old(self).own_process_id,
                self.own_binary == old(self).own_binary,
                self.selection == old(self).selection,
            decreases n - i,
        {
            let ghost cur = self.ports@;
            let ghost kept = ports_off_node(ports_mid.take(i as int), id);
            let ghost k = kept.len() as int;
            proof {
                assert(cur[k] == ports_mid[i as int]);
                lemma_value_at_index(cur, k);
                assert(ports_mid.take(i + 1).drop_last() =~= ports_mid.take(i as int));
                assert(ports_mid.take(i + 1).last() == ports_mid[i as int]);
            }
            let on_node = match self.ports.get(ids[i]) {
                Some(p) => p.node == id,
                None => false,
            };
            if on_node {
                self.ports.remove(ids[i]);
                proof {
                    lemma_filter_removes_one(cur, k);
                    assert(cur.remove(k) =~= ports_off_node(ports_mid.take(i + 1), id) + ports_mid.skip(i + 1));
                }
            } else {
                proof {
                    assert(cur =~= ports_off_node(ports_mid.take(i + 1), id) + ports_mid.skip(i + 1));
                }
            }
            i = i + 1;
        }
        assert(ports_mid.take(n as int) =~= ports_mid);
        assert(ports_mid.skip(n as int) =~= Seq::<(u32, Port)>::empty());
        assert(self.ports@ =~= ports_off_node(ports_mid, id));
        self.clients.remove(id);
        proof {
            lemma_without_id_from(nodes_before, id);
            lemma_without_id_from(ports_before, id);
            lemma_off_node_from(ports_mid, id);
            assert forall|k: int| 0 <= k < self.nodes@.len() implies (#[trigger] self.nodes@[k]).0 == self.nodes@[k].1.id by {
                let x = self.nodes@[k];
                assert(self.nodes@.contains(x));
                assert(nodes_before.contains(x));
                let j = choose|j: int| 0 <= j < nodes_before.len() && nodes_before[j] == x;
                assert(nodes_before[j].0 == nodes_before[j].1.id);
            }
            assert forall|k: int| 0 <= k < self.ports@.len() implies (#[trigger] self.ports@[k]).0 == self.ports@[k].1.id by {
                let x = self.ports@[k];
                assert(self.ports@.contains(x));
                assert(ports_mid.contains(x));
                assert(ports_before.contains(x));
                let j = choose|j: int| 0 <= j < ports_before.len() && ports_before[j] == x;
                assert(ports_before[j].0 == ports_before[j].1.id);
            }
        }
    }
}

/// Where the row for `key` is in `rows`, or where it would go to keep them in key order.
pub(crate) fn find_row(rows: &Vec<AudioSource>, key: &AppKey) -> (r: (usize, bool))
    requires
        forall|a: int, b: int| 0 <= a < b < rows@.len() ==> text_lt(#[trigger] source_rows(rows@)[a].0, #[trigger] source_rows(rows@)[b].0),
    ensures
        r.0 <= rows@.len(),
        r.1 ==> r.0 < rows@.len() && source_rows(rows@)[r.0 as int].0 == key@,
        !r.1 ==> forall|i: int| 0 <= i < r.0 ==> text_lt(#[trigger] source_rows(rows@)[i].0, key@),
        !r.1 ==> forall|i: int| r.0 <= i < rows@.len() ==> text_lt(key@, #[trigger] source_rows(rows@)[i].0),
{
    let ghost rs = source_rows(rows@);
    let mut i: usize = 0;
    while i < rows.len()
        invariant
            rs == source_rows(rows@),
            i <= rows@.len(),
            forall|a: int, b: int| 0 <= a < b < rows@.len() ==> text_lt(#[trigger] rs[a].0, #[trigger] rs[b].0),
            forall|j: int| 0 <= j < i ==> text_lt(#[trigger] rs[j].0, key@),
        decreases rows@.len() - i,
    {
        assert(rs[i as int].0 == rows@[i as int].key@);
        match compare_str(rows[i].key.as_str(), key.as_str()) {
            Order::Less => {},
            Order::Equal => {
                return (i, true);
            },
            Order::Greater => {
                assert forall|j: int| i <= j < rows@.len() implies text_lt(key@, #[trigger] rs[j].0) by {
                    if j > i {
                        lemma_text_lt_transitive(key@, rs[i as int].0, rs[j].0);
                    }
                }
                return (i, false);
            },
        }
        i = i + 1;
    }
    (i, false)
}

/// A node that contributes no row leaves a listing a listing.
proof fn lemma_listing_extend_none(
    rows: Seq<(Seq<char>, Seq<char>)>,
    cs: Seq<Option<(Seq<char>, Seq<char>)>>,
    c: Option<(Seq<char>, Seq<char>)>,
)
    requires
        collapsed_listing(rows, cs),
        c is None,
    ensures
        collapsed_listing(rows, cs.push(c)),
{
    let cs2 = cs.push(c);
    assert forall|m: int| 0 <= m < rows.len() implies listed_first(cs2, rows[m]) by {
        assert(listed_first(cs, rows[m]));
        let i = choose|i: int| #[trigger] first_with_key(cs, i, rows[m].0) && cs[i]->0 == rows[m];
        assert(first_with_key(cs2, i, rows[m].0));
    }
    assert forall|i: int| 0 <= i < cs2.len() && (#[trigger] cs2[i]) is Some implies exists|m: int| 0 <= m < rows.len() && (#[trigger] rows[m]).0 == row_key(cs2[i]) by {
        assert(cs[i] == cs2[i]);
    }
}

/// A node whose identity already has a row leaves a listing a listing.
proof fn lemma_listing_extend_present(
    rows: Seq<(Seq<char>, Seq<char>)>,
    cs: Seq<Option<(Seq<char>, Seq<char>)>>,
    c: (Seq<char>, Seq<char>),
    pos: int,
)
    requires
        collapsed_listing(rows, cs),
        0 <= pos < rows.len(),
        rows[pos].0 == c.0,
    ensures
        collapsed_listing(rows, cs.push(Some(c))),
{
    let cs2 = cs.push(Some(c));
    assert forall|m: int| 0 <= m < rows.len() implies listed_first(cs2, rows[m]) by {
        assert(listed_first(cs, rows[m]));
        let i = choose|i: int| #[trigger] first_with_key(cs, i, rows[m].0) && cs[i]->0 == rows[m];
        assert(first_with_key(cs2, i, rows[m].0));
    }
    assert forall|i: int| 0 <= i < cs2.len() && (#[trigger] cs2[i]) is Some implies exists|m: int| 0 <= m < rows.len() && (#[trigger] rows[m]).0 == row_key(cs2[i]) by {
        if i < cs.len() {
            assert(cs[i] == cs2[i]);
        } else {
            assert(rows[pos].0 == row_key(cs2[i]));
        }
    }
}

/// A node whose identity has no row yet gets one at its place in key order.
proof fn lemma_listing_extend_new(
    rows: Seq<(Seq<char>, Seq<char>)>,
    cs: Seq<Option<(Seq<char>, Seq<char>)>>,
    c: (Seq<char>, Seq<char>),
    pos: int,
)
    requires
        collapsed_listing(rows, cs),
        0 <= pos <= rows.len(),
        forall|i: int| 0 <= i < pos ==> text_lt(#[trigger] rows[i].0, c.0),
        forall|i: int| pos <= i < rows.len() ==> text_lt(c.0, #[trigger] rows[i].0),
    ensures
        collapsed_listing(rows.insert(pos, c), cs.push(Some(c))),
{
    let cs2 = cs.push(Some(c));
    let r2 = rows.insert(pos, c);
    assert(forall|i: int| 0 <= i < rows.len() ==> rows[i].0 != c.0) by {
        assert forall|i: int| 0 <= i < rows.len() implies rows[i].0 != c.0 by {
            lemma_text_lt_irreflexive(c.0);
        }
    }
    // No earlier contribution has this identity: it would have a row.
    assert forall|j: int| 0 <= j < cs.len() implies !(cs[j] is Some && row_key(#[trigger] cs[j]) == c.0) by {
        if cs[j] is Some {
            let m = choose|m: int| 0 <= m < rows.len() && (#[trigger] rows[m]).0 == row_key(cs[j]);
        }
    }
    assert forall|a: int, b: int| 0 <= a < b < r2.len() implies text_lt(#[trigger] r2[a].0, #[trigger] r2[b].0) by {
        if a < pos && b < pos {
        } else if a < pos && b == pos {
        } else if a < pos {
            assert(r2[b] == rows[b - 1]);
        } else if a == pos {
            assert(r2[b] == rows[b - 1]);
        } else {
            assert(r2[a] == rows[a - 1]);
            assert(r2[b] == rows[b - 1]);
        }
    }
    assert forall|m: int| 0 <= m < r2.len() implies listed_first(cs2, r2[m]) by {
        if m == pos {
            assert(first_with_key(cs2, cs.len() as int, r2[m].0));
        } else {
            let m0 = if m < pos { m } else { m - 1 };
            assert(r2[m] == rows[m0]);
            assert(listed_first(cs, rows[m0]));
            let i = choose|i: int| #[trigger] first_with_key(cs, i, rows[m0].0) && cs[i]->0 == rows[m0];
            assert(first_with_key(cs2, i, r2[m].0));
        }
    }
    assert forall|i: int| 0 <= i < cs2.len() && (#[trigger] cs2[i]) is Some implies exists|m: int| 0 <= m < r2.len() && (#[trigger] r2[m]).0 == row_key(cs2[i]) by {
        if i < cs.len() {
            assert(cs[i] == cs2[i]);
            let m = choose|m: int| 0 <= m < rows.len() && (#[trigger] rows[m]).0 == row_key(cs[i]);
            if m < pos {
                assert(r2[m] == rows[m]);
            } else {
                assert(r2[m + 1] == rows[m]);
            }
        } else {
            assert(r2[pos].0 == row_key(cs2[i]));
        }
    }
}

/// The port entries of `s` whose port is not on `node`, in order.
pub open spec fn ports_off_node(s: Seq<(u32, Port)>, node: u32) -> Seq<(u32, Port)>
    decreases s.len(),
{
    if s.len() == 0 {
        s
    } else {
        let r = ports_off_node(s.drop_last(), node);
        if s.last().1.node != node {
            r.push(s.last())
        } else {
            r
        }
    }
}

/// What `ports_off_node` keeps comes from `s`.
proof fn lemma_off_node_from(s: Seq<(u32, Port)>, node: u32)
    ensures
        forall|x: (u32, Port)| ports_off_node(s, node).contains(x) ==> s.contains(x),
    decreases s.len(),
{
    if s.len() > 0 {
        lemma_off_node_from(s.drop_last(), node);
        assert forall|x: (u32, Port)| ports_off_node(s, node).contains(x) implies s.contains(x) by {
            let d = s.drop_last();
            if ports_off_node(d, node).contains(x) {
                assert(d.contains(x));
                let k = choose|k: int| 0 <= k < d.len() && d[k] == x;
                assert(s[k] == x);
            } else {
                assert(s[s.len() - 1] == x);
            }
        }
    }
}

/// Inserting an entry keyed by its own port id keeps every entry keyed by its port id.
proof fn lemma_insert_keeps_port_keying(before: Seq<(u32, Port)>, after: Seq<(u32, Port)>, id: u32, port: Port)
    requires
        keyed_by_port_id(before),
        ids_increase(before),
        port.id == id,
        ids_increase(after),
        as_map(after) == as_map(before).insert(id, port),
    ensures
        keyed_by_port_id(after),
{
    assert forall|i: int| 0 <= i < after.len() implies (#[trigger] after[i]).0 == after[i].1.id by {
        lemma_value_at_index(after, i);
        let k = after[i].0;
        assert(as_map(after).contains_key(k));
        if k != id {
            assert(as_map(before).contains_key(k));
            let j = choose|j: int| 0 <= j < before.len() && (#[trigger] before[j]).0 == k;
            lemma_value_at_index(before, j);
        }
    }
}

/// Inserting an entry keyed by its own node id keeps every entry keyed by its node id.
proof fn lemma_insert_keeps_keying(before: Seq<(u32, Node)>, after: Seq<(u32, Node)>, id: u32, node: Node)
    requires
        keyed_by_node_id(before),
        ids_increase(before),
        node.id == id,
        ids_increase(after),
        as_map(after) == as_map(before).insert(id, node),
    ensures
        keyed_by_node_id(after),
{
    assert forall|i: int| 0 <= i < after.len() implies (#[trigger] after[i]).0 == after[i].1.id by {
        lemma_value_at_index(after, i);
        let k = after[i].0;
        assert(as_map(after).contains_key(k));
        if k != id {
            assert(as_map(before).contains_key(k));
            let j = choose|j: int| 0 <= j < before.len() && (#[trigger] before[j]).0 == k;
            lemma_value_at_index(before, j);
        }
    }
}

/// No entry of `without_id(s, id)` has the id `id`.
proof fn lemma_without_id_lacks<T>(s: Seq<(u32, T)>, id: u32)
    ensures
        !has_id(without_id(s, id), id),
    decreases s.len(),
{
    if s.len() > 0 {
        lemma_without_id_lacks(s.drop_last(), id);
        let r = without_id(s.drop_last(), id);
        if s.last().0 != id {
            assert forall|i: int| 0 <= i < r.push(s.last()).len() implies (#[trigger] r.push(s.last())[i]).0 != id by {
                if i < r.len() {
                    assert(r.push(s.last())[i] == r[i]);
                }
            }
        }
    }
}

/// No port kept by `ports_off_node(s, node)` is on `node`.
proof fn lemma_off_node_lacks(s: Seq<(u32, Port)>, node: u32)
    ensures
        forall|i: int| 0 <= i < ports_off_node(s, node).len() ==> (#[trigger] ports_off_node(s, node)[i]).1.node != node,
    decreases s.len(),
{
    if s.len() > 0 {
        lemma_off_node_lacks(s.drop_last(), node);
        let r = ports_off_node(s.drop_last(), node);
        if s.last().1.node != node {
            assert forall|i: int| 0 <= i < r.push(s.last()).len() implies (#[trigger] r.push(s.last())[i]).1.node != node by {
                if i < r.len() {
                    assert(r.push(s.last())[i] == r[i]);
                }
            }
        }
    }
}

impl Graph {
    /// The plans for `node` over ports in id order: one for each port of `node` whose channel is
    /// captured, and nothing else, in increasing port id.
    pub proof fn lemma_plans_for_node(&self, entries: Seq<(u32, Port)>, node: u32)
        requires
            ids_increase(entries),
            keyed_by_port_id(entries),
        ensures
            forall|i: int| 0 <= i < entries.len() && (#[trigger] entries[i]).1.node == node && self.plan_for(
                entries[i].1,
            ) is Some ==> self.plans_for_node(entries, node).contains(self.plan_for(entries[i].1)->0),
            forall|p: LinkPlan| #[trigger] self.plans_for_node(entries, node).contains(p) ==> exists|i: int|
                0 <= i < entries.len() && (#[trigger] entries[i]).1.node == node && self.plan_for(entries[i].1)
                == Some(p),
            forall|p: LinkPlan| #[trigger] self.plans_for_node(entries, node).contains(p) ==> exists|i: int|
                0 <= i < entries.len() && (#[trigger] entries[i]).0 == p.port,
            forall|a: int, b: int| 0 <= a < b < self.plans_for_node(entries, node).len() ==> (#[trigger] self.plans_for_node(
                entries,
                node,
            )[a]).port < (#[trigger] self.plans_for_node(entries, node)[b]).port,
        decreases entries.len(),
    {
        if entries.len() > 0 {
            let d = entries.drop_last();
            let l = entries.last();
            assert forall|a: int, b: int| 0 <= a < b < d.len() implies (#[trigger] d[a]).0 < (#[trigger] d[b]).0 by {
                assert(d[a] == entries[a] && d[b] == entries[b]);
            }
            assert forall|k: int| 0 <= k < d.len() implies (#[trigger] d[k]).0 == d[k].1.id by {
                assert(d[k] == entries[k]);
            }
            self.lemma_plans_for_node(d, node);
            let r = self.plans_for_node(d, node);
            let full = self.plans_for_node(entries, node);
            assert(entries[entries.len() - 1] == l);
            if l.1.node == node && self.plan_for(l.1) is Some {
                let q = self.plan_for(l.1)->0;
                assert(full == r.push(q));
                assert(q.port == l.0);
                assert forall|t: int| 0 <= t < r.len() implies (#[trigger] r[t]).port < l.0 by {
                    assert(r.contains(r[t]));
                    let k = choose|k: int| 0 <= k < d.len() && (#[trigger] d[k]).0 == r[t].port;
                    assert(d[k] == entries[k]);
                }
                assert forall|i: int| 0 <= i < entries.len() && (#[trigger] entries[i]).1.node == node
                    && self.plan_for(entries[i].1) is Some implies full.contains(self.plan_for(entries[i].1)->0) by {
                    if i < d.len() {
                        assert(d[i] == entries[i]);
                        let t = choose|t: int| 0 <= t < r.len() && r[t] == self.plan_for(d[i].1)->0;
                        assert(full[t] == r[t]);
                    } else {
                        assert(full[r.len() as int] == q);
                    }
                }
                assert forall|p: LinkPlan| #[trigger] full.contains(p) implies exists|i: int| 0 <= i < entries.len()
                    && (#[trigger] entries[i]).1.node == node && self.plan_for(entries[i].1) == Some(p) by {
                    let t = choose|t: int| 0 <= t < full.len() && full[t] == p;
                    if t < r.len() {
                        assert(r[t] == p);
                        assert(r.contains(p));
                        let i = choose|i: int| 0 <= i < d.len() && (#[trigger] d[i]).1.node == node
                            && self.plan_for(d[i].1) == Some(p);
                        assert(d[i] == entries[i]);
                    } else {
                        assert(entries[entries.len() - 1] == l);
                    }
                }
                assert forall|p: LinkPlan| #[trigger] full.contains(p) implies exists|i: int| 0 <= i < entries.len()
                    && (#[trigger] entries[i]).0 == p.port by {
                    let t = choose|t: int| 0 <= t < full.len() && full[t] == p;
                    if t < r.len() {
                        assert(r[t] == p);
                        assert(r.contains(p));
                        let i = choose|i: int| 0 <= i < d.len() && (#[trigger] d[i]).0 == p.port;
                        assert(d[i] == entries[i]);
                    } else {
                        assert(entries[entries.len() - 1].0 == p.port);
                    }
                }
            } else {
                assert(full == r);
                assert forall|i: int| 0 <= i < entries.len() && (#[trigger] entries[i]).1.node == node
                    && self.plan_for(entries[i].1) is Some implies full.contains(self.plan_for(entries[i].1)->0) by {
                    if i < d.len() {
                        assert(d[i] == entries[i]);
                    }
                }
                assert forall|p: LinkPlan| #[trigger] full.contains(p) implies exists|i: int| 0 <= i < entries.len()
                    && (#[trigger] entries[i]).1.node == node && self.plan_for(entries[i].1) == Some(p) by {
                    let i = choose|i: int| 0 <= i < d.len() && (#[trigger] d[i]).1.node == node
                        && self.plan_for(d[i].1) == Some(p);
                    assert(d[i] == entries[i]);
                }
                assert forall|p: LinkPlan| #[trigger] full.contains(p) implies exists|i: int| 0 <= i < entries.len()
                    && (#[trigger] entries[i]).0 == p.port by {
                    let i = choose|i: int| 0 <= i < d.len() && (#[trigger] d[i]).0 == p.port;
                    assert(d[i] == entries[i]);
                }
            }
        }
    }

    /// Entries with no port on `node` ask for no link to it.
    proof fn lemma_no_plans_without_ports(&self, entries: Seq<(u32, Port)>, node: u32)
        requires
            forall|i: int| 0 <= i < entries.len() ==> (#[trigger] entries[i]).1.node != node,
        ensures
            self.plans_for_node(entries, node) == Seq::<LinkPlan>::empty(),
        decreases entries.len(),
    {
        if entries.len() > 0 {
            let d = entries.drop_last();
            assert forall|i: int| 0 <= i < d.len() implies (#[trigger] d[i]).1.node != node by {
                assert(d[i] == entries[i]);
            }
            self.lemma_no_plans_without_ports(d, node);
            assert(entries[entries.len() - 1].1.node != node);
        }
    }

    /// Removing an object forgets it: after `remove(id)` no port waits to be linked to node `id`,
    /// a port that arrives later for node `id` asks for no link, node `id` is no longer tracked
    /// (so it is no source), and an application output node that names client `id` is
    /// unresolved until that client is reported again.
    pub proof fn lemma_removed_object_is_forgotten(before: Graph, after: Graph, id: u32, port: Port, node: Node)
        requires
            before.wf(),
            after.removes(before, id),
        ensures
            after.plans_for_node(after.port_entries(), id) == Seq::<LinkPlan>::empty(),
            port.node == id ==> after.plan_for(port) is None,
            !has_id(after.node_entries(), id),
            node.client == Some(id) && node.media_class@ == APP_OUTPUT_CLASS@ ==> after.verdict_for(node)
                == NodeVerdict::Unresolved,
    {
        lemma_without_id_lacks(before.node_entries(), id);
        lemma_off_node_lacks(without_id(before.port_entries(), id), id);
        after.lemma_no_plans_without_ports(after.port_entries(), id);
        assert(!after.clients_map().contains_key(id));
    }

    /// Only a foreign application's output, from a process whose pid is known and is not ours,
    /// whose identity is not brp's own and is admitted by the selection, is ever linked; our own
    /// capture stream never is, so capture never loops back into itself.
    pub proof fn lemma_linked_nodes_are_foreign_and_selected(&self, node: Node)
        ensures
            self.verdict_for(node) == NodeVerdict::Linked ==> {
                let c = self.client_of(node.client);
                &&& c is Some
                &&& c->0.pid is Some
                &&& c->0.pid != Some(self.own_pid())
                &&& client_key(c->0) != Some(self.own_key())
                &&& self.carried().admits_text(client_key(c->0))
                &&& node.media_class@ == APP_OUTPUT_CLASS@
            },
            self.verdict_for(node) == NodeVerdict::Own ==> opt_text(node.name) == Some(OWN_STREAM_NAME@),
    {
    }
}

} // verus!

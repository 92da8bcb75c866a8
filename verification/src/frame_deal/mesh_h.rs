use vstd::prelude::*;

verus! {

/// What a route entry of a node report holds.
pub struct RouteView {
    pub parent_mac: Seq<u8>,
    pub pan_id: u16,
    pub layer: u8,
    pub rank: u32,
}

/// What a neighbour entry of a node report holds.
pub struct NbrView {
    pub nbr_mac: Seq<u8>,
    pub rssi: u8,
    pub lqi: u8,
}

/// What a node report holds.
pub struct StatusView {
    pub mac: Seq<u8>,
    pub net_routes: Seq<RouteView>,
    pub nbrs: Seq<NbrView>,
}

/// What a frame asks the monitor to do.
pub enum EventView {
    Status(StatusView),
    Leave(Seq<Seq<u8>>),
    Response(Seq<u8>),
}

#[derive(Debug, PartialEq, Eq)]
pub struct NetRoute {
    pub parent_mac: Vec<u8>,
    pub pan_id: u16,
    pub layer: u8,
    pub rank: u32,
}

#[derive(Debug, PartialEq, Eq)]
pub struct NetNbr {
    pub nbr_mac: Vec<u8>,
    pub rssi: u8,
    pub lqi: u8,
}

#[derive(Debug, PartialEq, Eq)]
pub struct NodeStatus {
    pub mac: Vec<u8>,
    pub net_routes: Vec<NetRoute>,
    pub nbrs: Vec<NetNbr>,
}

/// An action that a received mesh frame calls for.
#[derive(Debug, PartialEq, Eq)]
pub enum MeshEvent {
    /// A node reported its status (routes and neighbours).
    NodeStatus(NodeStatus),
    /// Nodes with these MAC addresses left the network.
    NodeLeave(Vec<Vec<u8>>),
    /// The node with this MAC address answered a query.
    NodeResponse(Vec<u8>),
}

impl View for NetRoute {
    type V = RouteView;

    open spec fn view(&self) -> RouteView {
        RouteView {
            parent_mac: self.parent_mac@,
            pan_id: self.pan_id,
            layer: self.layer,
            rank: self.rank,
        }
    }
}

impl View for NetNbr {
    type V = NbrView;

    open spec fn view(&self) -> NbrView {
        NbrView { nbr_mac: self.nbr_mac@, rssi: self.rssi, lqi: self.lqi }
    }
}

pub open spec fn routes_view(v: Seq<NetRoute>) -> Seq<RouteView> {
    v.map_values(|r: NetRoute| r@)
}

pub open spec fn nbrs_view(v: Seq<NetNbr>) -> Seq<NbrView> {
    v.map_values(|n: NetNbr| n@)
}

pub open spec fn macs_view(v: Seq<Vec<u8>>) -> Seq<Seq<u8>> {
    v.map_values(|m: Vec<u8>| m@)
}

impl View for NodeStatus {
    type V = StatusView;

    open spec fn view(&self) -> StatusView {
        StatusView {
            mac: self.mac@,
            net_routes: routes_view(self.net_routes@),
            nbrs: nbrs_view(self.nbrs@),
        }
    }
}

impl View for MeshEvent {
    type V = EventView;

    open spec fn view(&self) -> EventView {
        match self {
            MeshEvent::NodeStatus(s) => EventView::Status(s@),
            MeshEvent::NodeLeave(m) => EventView::Leave(macs_view(m@)),
            MeshEvent::NodeResponse(m) => EventView::Response(m@),
        }
    }
}

pub open spec fn events_view(v: Seq<MeshEvent>) -> Seq<EventView> {
    v.map_values(|e: MeshEvent| e@)
}

impl Clone for NetNbr {
    fn clone(&self) -> (res: Self)
        ensures
            res@ == self@,
    {
        NetNbr { nbr_mac: self.nbr_mac.clone(), rssi: self.rssi, lqi: self.lqi }
    }
}

/// Length of a MAC address in a frame.
pub const MAC_LEN: usize = 16;

/// Size of one route entry: parent MAC, PAN id (2), layer (1), rank (4).
pub const ROUTE_LEN: usize = 23;

/// Size of one neighbour entry: MAC, RSSI (1), LQI (1).
pub const NBR_LEN: usize = 18;

/// The route entry that starts at byte `i`.
pub open spec fn route_at(s: Seq<u8>, i: int) -> RouteView {
    RouteView {
        parent_mac: s.subrange(i, i + 16),
        pan_id: (s[i + 16] + s[i + 17] * 256) as u16,
        layer: s[i + 18],
        rank: (s[i + 19] + s[i + 20] * 256 + s[i + 21] * 65536 + s[i + 22] * 16777216) as u32,
    }
}

/// The neighbour entry that starts at byte `i`.
pub open spec fn nbr_at(s: Seq<u8>, i: int) -> NbrView {
    NbrView { nbr_mac: s.subrange(i, i + 16), rssi: s[i + 16], lqi: s[i + 17] }
}

/// The route and neighbour sections that start at byte `at`: a route count, that many
/// route entries, a neighbour count, that many neighbour entries. The frame must hold
/// at least one byte after the last route entry, and every neighbour entry whole;
/// otherwise there is no section.
pub open spec fn sections_at(s: Seq<u8>, at: int) -> Option<(Seq<RouteView>, Seq<NbrView>)> {
    let rn = s[at] as int;
    let nbr_at_count = at + 1 + ROUTE_LEN * rn;
    if nbr_at_count < s.len() {
        let nn = s[nbr_at_count] as int;
        let first_nbr = nbr_at_count + 1;
        if first_nbr + NBR_LEN * nn <= s.len() {
            Some(
                (
                    Seq::new(rn as nat, |k: int| route_at(s, at + 1 + ROUTE_LEN * k)),
                    Seq::new(nn as nat, |k: int| nbr_at(s, first_nbr + NBR_LEN * k)),
                ),
            )
        } else {
            None
        }
    } else {
        None
    }
}

pub open spec fn sections_view(r: Option<(Vec<NetRoute>, Vec<NetNbr>)>) -> Option<
    (Seq<RouteView>, Seq<NbrView>),
> {
    match r {
        Some((a, b)) => Some((routes_view(a@), nbrs_view(b@))),
        None => None,
    }
}

fn copy_range(frame: &[u8], start: usize, n: usize) -> (v: Vec<u8>)
    requires
        start + n <= frame@.len(),
    ensures
        v@ == frame@.subrange(start as int, start + n),
{
    let mut v: Vec<u8> = Vec::new();
    let mut j: usize = 0;
    while j < n
        invariant
            j <= n,
            start + n <= frame.len(),
            v@ == frame@.subrange(start as int, start + j),
        decreases n - j,
    {
        v.push(frame[start + j]);
        j = j + 1;
        assert(v@ =~= frame@.subrange(start as int, start + j));
    }
    v
}

fn parse_sections(frame: &[u8], at: usize) -> (r: Option<(Vec<NetRoute>, Vec<NetNbr>)>)
    requires
        at < frame@.len(),
    ensures
        sections_view(r) == sections_at(frame@, at as int),
{
    let ghost s = frame@;
    let route_num: u8 = frame[at];
    let mut index: usize = at + 1;
    let mut routes: Vec<NetRoute> = Vec::new();
    let mut i: u8 = 0;
    while i < route_num
        invariant
            s == frame@,
            at < s.len(),
            route_num == s[at as int],
            i <= route_num,
            index == at + 1 + ROUTE_LEN * i,
            index <= s.len(),
            routes_view(routes@) =~= Seq::new(
                i as nat,
                |k: int| route_at(s, at + 1 + ROUTE_LEN * k),
            ),
        decreases route_num - i,
    {
        if frame.len() - index <= 23 {
            return None;
        }
        let parent_mac = copy_range(frame, index, 16);
        let pan_id: u16 = frame[index + 16] as u16 + frame[index + 17] as u16 * 256;
        let layer: u8 = frame[index + 18];
        let rank: u32 = frame[index + 19] as u32 + frame[index + 20] as u32 * 256
            + frame[index + 21] as u32 * 65536 + frame[index + 22] as u32 * 16777216;
        let ghost before = routes@;
        let route = NetRoute { parent_mac, pan_id, layer, rank };
        assert(route@ == route_at(s, index as int));
        routes.push(route);
        assert(routes@ == before.push(route));
        assert(routes_view(routes@) =~= routes_view(before).push(route@));
        index = index + 23;
        i = i + 1;
        assert(routes_view(routes@) =~= Seq::new(
            i as nat,
            |k: int| route_at(s, at + 1 + ROUTE_LEN * k),
        ));
    }
    if index >= frame.len() {
        return None;
    }
    let nbr_num: u8 = frame[index];
    let ghost first_nbr = index + 1;
    index = index + 1;
    let mut nbrs: Vec<NetNbr> = Vec::new();
    let mut j: u8 = 0;
    while j < nbr_num
        invariant
            s == frame@,
            at < s.len(),
            route_num == s[at as int],
            first_nbr == at + 1 + ROUTE_LEN * route_num + 1,
            nbr_num == s[first_nbr - 1],
            routes_view(routes@) =~= Seq::new(
                route_num as nat,
                |k: int| route_at(s, at + 1 + ROUTE_LEN * k),
            ),
            j <= nbr_num,
            index == first_nbr + NBR_LEN * j,
            index <= s.len(),
            nbrs_view(nbrs@) =~= Seq::new(j as nat, |k: int| nbr_at(s, first_nbr + NBR_LEN * k)),
        decreases nbr_num - j,
    {
        if frame.len() - index < 18 {
            return None;
        }
        let nbr_mac = copy_range(frame, index, 16);
        let nbr = NetNbr { nbr_mac, rssi: frame[index + 16], lqi: frame[index + 17] };
        let ghost before = nbrs@;
        nbrs.push(nbr);
        assert(nbrs@ == before.push(nbr));
        assert(nbrs_view(nbrs@) =~= nbrs_view(before).push(nbr@));
        index = index + 18;
        j = j + 1;
        assert(nbrs_view(nbrs@) =~= Seq::new(
            j as nat,
            |k: int| nbr_at(s, first_nbr + NBR_LEN * k),
        ));
    }
    Some((routes, nbrs))
}


/// Node status carried by a status report frame: the node MAC at bytes 5..21, and the
/// route count at byte 53 followed by the route and neighbour sections. A report whose
/// bytes 53 and 54 are both zero carries nothing.
pub open spec fn status_report(s: Seq<u8>) -> Option<StatusView> {
    if s.len() >= 55 && !(s[53] == 0 && s[54] == 0) {
        match sections_at(s, 53) {
            Some((r, n)) => Some(StatusView { mac: s.subrange(5, 21), net_routes: r, nbrs: n }),
            None => None,
        }
    } else {
        None
    }
}

/// Actions of a status report frame.
pub open spec fn report_events(s: Seq<u8>) -> Seq<EventView> {
    match status_report(s) {
        Some(st) => seq![EventView::Status(st)],
        None => seq![],
    }
}

/// Actions of a node-leave frame: a count at byte 4, then that many MACs.
pub open spec fn leave_events(s: Seq<u8>) -> Seq<EventView> {
    if s.len() >= 5 && 5 + MAC_LEN * s[4] <= s.len() {
        seq![
            EventView::Leave(
                Seq::new(s[4] as nat, |k: int| s.subrange(5 + MAC_LEN * k, 5 + MAC_LEN * k + MAC_LEN)),
            ),
        ]
    } else {
        seq![]
    }
}

/// Actions of a query response frame: the node MAC at bytes 4..20 answered, then its
/// status follows from byte 20 on (none at all when bytes 20 and 21 are both zero).
pub open spec fn response_events(s: Seq<u8>) -> Seq<EventView> {
    if s.len() < 22 {
        seq![]
    } else {
        let mac = s.subrange(4, 20);
        if s[20] == 0 && s[21] == 0 {
            seq![
                EventView::Response(mac),
                EventView::Status(StatusView { mac, net_routes: seq![], nbrs: seq![] }),
            ]
        } else {
            match sections_at(s, 20) {
                Some((r, n)) => seq![
                    EventView::Response(mac),
                    EventView::Status(StatusView { mac, net_routes: r, nbrs: n }),
                ],
                None => seq![EventView::Response(mac)],
            }
        }
    }
}

/// A handler for the mesh frames of one type.
pub trait FrameProcessor {
    /// The frame type this handler takes.
    spec fn frame_type_spec(&self) -> u8;

    /// The actions that this handler derives from a frame.
    spec fn events_spec(&self, frame: Seq<u8>) -> Seq<EventView>;

    fn on_new_frame(&self, frame: &[u8]) -> (events: Vec<MeshEvent>)
        ensures
            events_view(events@) == self.events_spec(frame@),
    ;

    fn get_frame_type(&self) -> (t: u8)
        ensures
            t == self.frame_type_spec(),
    ;
}

pub struct Processor90 {
    pub frame_type: u8,
}

pub struct Processor92 {
    pub frame_type: u8,
}

pub struct Processor97 {
    pub frame_type: u8,
}

impl FrameProcessor for Processor90 {
    open spec fn frame_type_spec(&self) -> u8 {
        self.frame_type
    }

    open spec fn events_spec(&self, frame: Seq<u8>) -> Seq<EventView> {
        report_events(frame)
    }

    fn get_frame_type(&self) -> (t: u8) {
        self.frame_type
    }

    fn on_new_frame(&self, frame: &[u8]) -> (events: Vec<MeshEvent>) {
        let mut events: Vec<MeshEvent> = Vec::new();
        if frame.len() < 55 {
            assert(events_view(events@) =~= report_events(frame@));
            return events;
        }
        if frame[53] == 0 && frame[54] == 0 {
            assert(events_view(events@) =~= report_events(frame@));
            return events;
        }
        let mac = copy_range(frame, 5, 16);
        match parse_sections(frame, 53) {
            Some((net_routes, nbrs)) => {
                let st = NodeStatus { mac, net_routes, nbrs };
                events.push(MeshEvent::NodeStatus(st));
            },
            None => {},
        }
        assert(events_view(events@) =~= report_events(frame@));
        events
    }
}

impl FrameProcessor for Processor92 {
    open spec fn frame_type_spec(&self) -> u8 {
        self.frame_type
    }

    open spec fn events_spec(&self, frame: Seq<u8>) -> Seq<EventView> {
        leave_events(frame)
    }

    fn get_frame_type(&self) -> (t: u8) {
        self.frame_type
    }

    fn on_new_frame(&self, frame: &[u8]) -> (events: Vec<MeshEvent>) {
        let ghost s = frame@;
        let mut events: Vec<MeshEvent> = Vec::new();
        if frame.len() < 5 {
            assert(events_view(events@) =~= leave_events(s));
            return events;
        }
        let num: u8 = frame[4];
        let mut index: usize = 5;
        let mut leave_node: Vec<Vec<u8>> = Vec::new();
        let mut i: u8 = 0;
        while i < num
            invariant
                s == frame@,
                s.len() >= 5,
                num == s[4],
                events@.len() == 0,
                i <= num,
                index == 5 + MAC_LEN * i,
                index <= s.len(),
                macs_view(leave_node@) =~= Seq::new(
                    i as nat,
                    |k: int| s.subrange(5 + MAC_LEN * k, 5 + MAC_LEN * k + MAC_LEN),
                ),
            decreases num - i,
        {
            if frame.len() - index < 16 {
                assert(5 + MAC_LEN * num > s.len());
                assert(events_view(events@) =~= leave_events(s));
                return events;
            }
            let mac = copy_range(frame, index, 16);
            let ghost before = leave_node@;
            leave_node.push(mac);
            assert(macs_view(leave_node@) =~= macs_view(before).push(mac@));
            index = index + 16;
            i = i + 1;
        }
        events.push(MeshEvent::NodeLeave(leave_node));
        assert(events_view(events@) =~= leave_events(s));
        events
    }
}

impl FrameProcessor for Processor97 {
    open spec fn frame_type_spec(&self) -> u8 {
        self.frame_type
    }

    open spec fn events_spec(&self, frame: Seq<u8>) -> Seq<EventView> {
        response_events(frame)
    }

    fn get_frame_type(&self) -> (t: u8) {
        self.frame_type
    }

    fn on_new_frame(&self, frame: &[u8]) -> (events: Vec<MeshEvent>) {
        let mut events: Vec<MeshEvent> = Vec::new();
        if frame.len() < 22 {
            assert(events_view(events@) =~= response_events(frame@));
            return events;
        }
        let mac = copy_range(frame, 4, 16);
        events.push(MeshEvent::NodeResponse(copy_range(frame, 4, 16)));
        if frame[20] == 0 && frame[21] == 0 {
            let st = NodeStatus { mac, net_routes: Vec::new(), nbrs: Vec::new() };
            assert(routes_view(st.net_routes@) =~= seq![]);
            assert(nbrs_view(st.nbrs@) =~= seq![]);
            events.push(MeshEvent::NodeStatus(st));
            assert(events_view(events@) =~= response_events(frame@));
            return events;
        }
        match parse_sections(frame, 20) {
            Some((net_routes, nbrs)) => {
                let st = NodeStatus { mac, net_routes, nbrs };
                events.push(MeshEvent::NodeStatus(st));
            },
            None => {},
        }
        assert(events_view(events@) =~= response_events(frame@));
        events
    }
}

/// Actions of all handlers in `ps`, in order, whose type is the frame's type (byte 3).
pub open spec fn dispatch_spec(ps: Seq<Box<dyn FrameProcessor>>, frame: Seq<u8>) -> Seq<EventView>
    decreases ps.len(),
{
    if ps.len() == 0 {
        seq![]
    } else {
        dispatch_spec(ps.drop_last(), frame) + if ps.last().frame_type_spec() == frame[3] {
            ps.last().events_spec(frame)
        } else {
            seq![]
        }
    }
}

/// Positions, in increasing order, of the handlers in `ps` whose type is `t`.
pub open spec fn positions_of_type(ps: Seq<Box<dyn FrameProcessor>>, t: u8) -> Seq<int>
    decreases ps.len(),
{
    if ps.len() == 0 {
        seq![]
    } else {
        positions_of_type(ps.drop_last(), t) + if ps.last().frame_type_spec() == t {
            seq![ps.len() - 1]
        } else {
            seq![]
        }
    }
}

/// `ps` after removing, one after another, the element at each position of `ds` from the
/// sequence as the previous removals left it.
pub open spec fn remove_in_turn<T>(ps: Seq<T>, ds: Seq<int>) -> Seq<T>
    decreases ds.len(),
{
    if ds.len() == 0 {
        ps
    } else {
        remove_in_turn(ps, ds.drop_last()).remove(ds.last())
    }
}

/// Whether each removal of `remove_in_turn` finds its position inside the sequence.
pub open spec fn removable(len: int, ds: Seq<int>) -> bool {
    forall|k: int| 0 <= k < ds.len() ==> 0 <= #[trigger] ds[k] < len - k
}

pub struct FrameProcessorMaster {
    pub frame_processors: Vec<Box<dyn FrameProcessor>>,
}

impl FrameProcessorMaster {
    pub fn register_frame_processor(&mut self, frame_processor: Box<dyn FrameProcessor>)
        ensures
            final(self).frame_processors@ == old(self).frame_processors@.push(frame_processor),
    {
        self.frame_processors.push(frame_processor);
    }

    pub fn dispatch_new_frame(&self, frame: &[u8]) -> (events: Vec<MeshEvent>)
        requires
            self.frame_processors@.len() == 0 || frame@.len() >= 4,
        ensures
            events_view(events@) == dispatch_spec(self.frame_processors@, frame@),
    {
        let mut events: Vec<MeshEvent> = Vec::new();
        let mut i: usize = 0;
        while i < self.frame_processors.len()
            invariant
                i <= self.frame_processors@.len(),
                self.frame_processors@.len() == 0 || frame@.len() >= 4,
                events_view(events@) == dispatch_spec(self.frame_processors@.take(i as int), frame@),
            decreases self.frame_processors@.len() - i,
        {
            let ghost before = events@;
            assert(self.frame_processors@.take(i + 1).drop_last() =~= self.frame_processors@.take(
                i as int,
            ));
            let processor = &self.frame_processors[i];
            if processor.get_frame_type() == frame[3] {
                let mut more = processor.on_new_frame(frame);
                let ghost m = more@;
                events.append(&mut more);
                assert(events_view(events@) =~= events_view(before) + events_view(m));
            }
            i = i + 1;
        }
        assert(self.frame_processors@.take(i as int) =~= self.frame_processors@);
        events
    }

    pub fn del_frame_processor(&mut self, frame_type: u8)
        requires
            removable(
                old(self).frame_processors@.len() as int,
                positions_of_type(old(self).frame_processors@, frame_type),
            ),
        ensures
            final(self).frame_processors@ == remove_in_turn(
                old(self).frame_processors@,
                positions_of_type(old(self).frame_processors@, frame_type),
            ),
    {
        let ghost ps = self.frame_processors@;
        let ghost ds = positions_of_type(ps, frame_type);
        let mut dels: Vec<usize> = Vec::new();
        let mut i: usize = 0;
        while i < self.frame_processors.len()
            invariant
                i <= ps.len(),
                self.frame_processors@ == ps,
                dels@.map_values(|x: usize| x as int) =~= positions_of_type(ps.take(i as int), frame_type),
            decreases ps.len() - i,
        {
            assert(ps.take(i + 1).drop_last() =~= ps.take(i as int));
            if self.frame_processors[i].get_frame_type() == frame_type {
                dels.push(i);
            }
            i = i + 1;
        }
        assert(ps.take(i as int) =~= ps);
        let mut k: usize = 0;
        while k < dels.len()
            invariant
                k <= dels@.len(),
                dels@.map_values(|x: usize| x as int) == ds,
                removable(ps.len() as int, ds),
                self.frame_processors@ == remove_in_turn(ps, ds.take(k as int)),
                self.frame_processors@.len() == ps.len() - k,
            decreases dels@.len() - k,
        {
            assert(ds.take(k + 1).drop_last() =~= ds.take(k as int));
            assert(ds[k as int] == dels@[k as int] as int);
            self.frame_processors.remove(dels[k]);
            k = k + 1;
        }
        assert(ds.take(k as int) =~= ds);
    }
}


proof fn lemma_positions_of_type(ps: Seq<Box<dyn FrameProcessor>>, t: u8)
    ensures
        ({
            let pos = positions_of_type(ps, t);
            &&& forall|k: int|
                0 <= k < pos.len() ==> 0 <= #[trigger] pos[k] < ps.len() && ps[pos[k]].frame_type_spec() == t
            &&& forall|k: int| 0 <= k < pos.len() ==> k <= #[trigger] pos[k]
            &&& forall|j: int|
                0 <= j < ps.len() && #[trigger] ps[j].frame_type_spec() == t ==> pos.contains(j)
        }),
    decreases ps.len(),
{
    if ps.len() > 0 {
        let p = ps.drop_last();
        lemma_positions_of_type(p, t);
        let pos = positions_of_type(ps, t);
        let pp = positions_of_type(p, t);
        let tail = if ps.last().frame_type_spec() == t {
            seq![ps.len() - 1]
        } else {
            Seq::<int>::empty()
        };
        assert(pos == pp + tail);
        if pp.len() > 0 {
            assert(pp.len() - 1 <= pp[pp.len() - 1]);
        }
        assert(pp.len() <= p.len());
        assert forall|k: int| 0 <= k < pos.len() implies 0 <= #[trigger] pos[k] < ps.len()
            && ps[pos[k]].frame_type_spec() == t && k <= pos[k] by {
            if k < pp.len() {
                assert(pos[k] == pp[k]);
                assert(0 <= pp[k] < p.len());
                assert(ps[pp[k]] == p[pp[k]]);
            } else {
                assert(pos[k] == ps.len() - 1);
            }
        }
        assert forall|j: int| 0 <= j < ps.len() && #[trigger] ps[j].frame_type_spec() == t implies pos.contains(
            j,
        ) by {
            if j < p.len() {
                assert(p[j] == ps[j]);
                let k = choose|k: int| 0 <= k < pp.len() && pp[k] == j;
                assert(pos == pp + (if ps.last().frame_type_spec() == t {
                    seq![ps.len() - 1]
                } else {
                    Seq::<int>::empty()
                }));
                assert(pos[k] == j);
            } else {
                assert(pos[pos.len() - 1] == j);
            }
        }
    }
}

/// Deleting the handlers of a type that at most one handler has leaves no handler of
/// that type and keeps the others in their order.
pub proof fn lemma_delete_single_type(ps: Seq<Box<dyn FrameProcessor>>, t: u8)
    requires
        positions_of_type(ps, t).len() <= 1,
    ensures
        removable(ps.len() as int, positions_of_type(ps, t)),
        ({
            let r = remove_in_turn(ps, positions_of_type(ps, t));
            &&& forall|j: int| 0 <= j < r.len() ==> #[trigger] r[j].frame_type_spec() != t
            &&& r.len() + positions_of_type(ps, t).len() == ps.len()
            &&& positions_of_type(ps, t).len() == 0 ==> r == ps
            &&& positions_of_type(ps, t).len() == 1 ==> r == ps.remove(positions_of_type(ps, t)[0])
        }),
{
    lemma_positions_of_type(ps, t);
    let pos = positions_of_type(ps, t);
    let r = remove_in_turn(ps, pos);
    if pos.len() == 1 {
        let i = pos[0];
        assert(pos.drop_last() =~= Seq::<int>::empty());
        assert(remove_in_turn(ps, pos.drop_last()) == ps);
        assert(r == ps.remove(i));
        assert forall|j: int| 0 <= j < r.len() implies #[trigger] r[j].frame_type_spec() != t by {
            let j2 = if j < i { j } else { j + 1 };
            assert(r[j] == ps[j2]);
            if ps[j2].frame_type_spec() == t {
                assert(pos.contains(j2));
            }
        }
    } else {
        assert forall|j: int| 0 <= j < r.len() implies #[trigger] r[j].frame_type_spec() != t by {
            if ps[j].frame_type_spec() == t {
                assert(pos.contains(j));
            }
        }
    }
}


/// The route and neighbour sections that start at byte `at` are read from the frame
/// as it stands: a route count byte, then that many 23-byte route entries (parent MAC,
/// PAN id low byte first, layer, rank low byte first), then a neighbour count byte,
/// then that many 18-byte neighbour entries (MAC, RSSI, LQI), one after another; every
/// entry lies inside the frame.
pub proof fn lemma_sections_layout(s: Seq<u8>, at: int)
    requires
        0 <= at < s.len(),
        sections_at(s, at) is Some,
    ensures
        ({
            let (r, n) = sections_at(s, at).unwrap();
            let rn = s[at] as int;
            let nb = at + 1 + 23 * rn;
            &&& r.len() == rn
            &&& forall|k: int|
                0 <= k < rn ==> {
                    let q = at + 1 + 23 * k;
                    &&& q + 23 <= s.len()
                    &&& (#[trigger] r[k]).parent_mac == s.subrange(q, q + 16)
                    &&& r[k].pan_id == s[q + 16] + 256 * s[q + 17]
                    &&& r[k].layer == s[q + 18]
                    &&& r[k].rank == s[q + 19] + 256 * s[q + 20] + 65536 * s[q + 21] + 16777216
                        * s[q + 22]
                }
            &&& nb < s.len()
            &&& n.len() == s[nb]
            &&& forall|k: int|
                0 <= k < n.len() ==> {
                    let p = nb + 1 + 18 * k;
                    &&& p + 18 <= s.len()
                    &&& (#[trigger] n[k]).nbr_mac == s.subrange(p, p + 16)
                    &&& n[k].rssi == s[p + 16]
                    &&& n[k].lqi == s[p + 17]
                }
        }),
{
    let (r, n) = sections_at(s, at).unwrap();
    let rn = s[at] as int;
    let nb = at + 1 + 23 * rn;
    assert forall|k: int| 0 <= k < rn implies {
        let q = at + 1 + 23 * k;
        &&& q + 23 <= s.len()
        &&& (#[trigger] r[k]).parent_mac == s.subrange(q, q + 16)
        &&& r[k].pan_id == s[q + 16] + 256 * s[q + 17]
        &&& r[k].layer == s[q + 18]
        &&& r[k].rank == s[q + 19] + 256 * s[q + 20] + 65536 * s[q + 21] + 16777216 * s[q + 22]
    } by {
        let q = at + 1 + 23 * k;
        assert(r[k] == route_at(s, q));
        assert(0 <= s[q + 16] + 256 * s[q + 17] <= 65535);
        assert(0 <= s[q + 19] + 256 * s[q + 20] + 65536 * s[q + 21] + 16777216 * s[q + 22]
            <= 4294967295);
    }
    assert forall|k: int| 0 <= k < n.len() implies {
        let p = nb + 1 + 18 * k;
        &&& p + 18 <= s.len()
        &&& (#[trigger] n[k]).nbr_mac == s.subrange(p, p + 16)
        &&& n[k].rssi == s[p + 16]
        &&& n[k].lqi == s[p + 17]
    } by {
        let p = nb + 1 + 18 * k;
        assert(n[k] == nbr_at(s, p));
    }
}

/// A status report gives the node MAC from bytes 5 to 20 and the sections from byte
/// 53, laid out as `lemma_sections_layout` says; its neighbours are exactly the
/// 18-byte entries after the neighbour count, in frame order.
pub proof fn lemma_status_report_layout(s: Seq<u8>)
    requires
        status_report(s) is Some,
    ensures
        ({
            let st = status_report(s).unwrap();
            let nb = 54 + 23 * (s[53] as int);
            &&& st.mac == s.subrange(5, 21)
            &&& st.net_routes.len() == s[53]
            &&& st.nbrs.len() == s[nb]
            &&& forall|k: int|
                0 <= k < st.nbrs.len() ==> (#[trigger] st.nbrs[k]).nbr_mac == s.subrange(
                    nb + 1 + 18 * k,
                    nb + 17 + 18 * k,
                ) && st.nbrs[k].rssi == s[nb + 17 + 18 * k] && st.nbrs[k].lqi == s[nb + 18
                    + 18 * k]
        }),
{
    lemma_sections_layout(s, 53);
    let st = status_report(s).unwrap();
    let (r, n) = sections_at(s, 53).unwrap();
    assert(st.nbrs == n);
}

/// A node-leave report lists, after its count byte at 4, that many 16-byte MACs one
/// after another.
pub proof fn lemma_leave_layout(s: Seq<u8>)
    requires
        leave_events(s).len() > 0,
    ensures
        leave_events(s).len() == 1,
        leave_events(s)[0] matches EventView::Leave(macs) && macs.len() == s[4] && forall|k: int|
            0 <= k < macs.len() ==> #[trigger] macs[k] == s.subrange(5 + 16 * k, 21 + 16 * k),
{
}


/// A query response of at least 22 bytes first reports that the node whose MAC is at
/// bytes 4 to 19 answered; its status follows with that MAC, no routes and no
/// neighbours when bytes 20 and 21 are both zero, else with the sections from byte 20
/// (laid out as `lemma_sections_layout` says) when they are whole.
pub proof fn lemma_response_layout(s: Seq<u8>)
    requires
        s.len() >= 22,
    ensures
        response_events(s)[0] == EventView::Response(s.subrange(4, 20)),
        s[20] == 0 && s[21] == 0 ==> response_events(s) == seq![
            EventView::Response(s.subrange(4, 20)),
            EventView::Status(StatusView { mac: s.subrange(4, 20), net_routes: seq![], nbrs: seq![] }),
        ],
        !(s[20] == 0 && s[21] == 0) && sections_at(s, 20) is Some ==> response_events(s).len() == 2
            && response_events(s)[1] == EventView::Status(StatusView {
            mac: s.subrange(4, 20),
            net_routes: sections_at(s, 20).unwrap().0,
            nbrs: sections_at(s, 20).unwrap().1,
        }),
        !(s[20] == 0 && s[21] == 0) && sections_at(s, 20) is None ==> response_events(s).len() == 1,
{
}

} // verus!

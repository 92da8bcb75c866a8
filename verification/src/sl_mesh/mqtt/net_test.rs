use vstd::prelude::*;
use crate::str_map::{StrMap, lemma_map_of_dom};
use crate::react_mqtt::white_list::WhiteList;
use crate::frame_lib::mesh::{trans_to_vec, wrap_command, hex_bytes, command_frame, command_fits};
use crate::mqtts::mqtt_h::{Token, Publish, PayloadView, message_for, next_token, mesh_publish, TXTOPIC};

verus! {

/// State of a network test: whether it runs, how many answers and queries each
/// whitelisted node had, the seconds between queries and the test length in seconds.
pub struct Test {
    pub flag: bool,
    pub res: StrMap<u16>,
    pub send: StrMap<u16>,
    pub interval: u16,
    pub duration: u16,
}

/// The network test of the monitor.
pub struct NetTest {
    pub test: Test,
}

/// What a `Test` holds.
pub struct TestView {
    pub flag: bool,
    pub res: Map<Seq<char>, u16>,
    pub send: Map<Seq<char>, u16>,
    pub interval: u16,
    pub duration: u16,
}

impl View for NetTest {
    type V = TestView;

    open spec fn view(&self) -> TestView {
        TestView {
            flag: self.test.flag,
            res: self.test.res@,
            send: self.test.send@,
            interval: self.test.interval,
            duration: self.test.duration,
        }
    }
}

/// A zero count for every key of `keys`.
pub open spec fn zero_counts<V>(keys: Map<Seq<char>, V>) -> Map<Seq<char>, u16> {
    Map::new(|k: Seq<char>| keys.contains_key(k), |k: Seq<char>| 0u16)
}

/// The count map after one more event for `mac`: unchanged while the test does not
/// run or when `mac` is not counted.
pub open spec fn count_one(flag: bool, m: Map<Seq<char>, u16>, mac: Seq<char>) -> Map<
    Seq<char>,
    u16,
> {
    if flag && m.contains_key(mac) {
        m.insert(mac, (m[mac] + 1) as u16)
    } else {
        m
    }
}

/// Whether one more event for `mac` can be counted without the count overflowing.
pub open spec fn count_fits(flag: bool, m: Map<Seq<char>, u16>, mac: Seq<char>) -> bool {
    flag && m.contains_key(mac) ==> m[mac] < u16::MAX
}

impl NetTest {
    pub fn new() -> (t: NetTest)
        ensures
            !t@.flag,
            t@.res == Map::<Seq<char>, u16>::empty(),
            t@.send == Map::<Seq<char>, u16>::empty(),
            t@.interval == 0,
            t@.duration == 0,
    {
        NetTest {
            test: Test {
                flag: false,
                res: StrMap::new(),
                send: StrMap::new(),
                interval: 0,
                duration: 0,
            },
        }
    }

    /// Prepares a stopped test over the whitelisted nodes, with all counts at zero.
    pub fn init(&mut self, interval: u16, duration: u16, white_list: &WhiteList)
        ensures
            final(self)@ == (TestView {
                flag: false,
                res: zero_counts(white_list@),
                send: zero_counts(white_list@),
                interval,
                duration,
            }),
    {
        let entries = white_list.devices.entries();
        let ghost es = entries@;
        let mut res: StrMap<u16> = StrMap::new();
        let mut send: StrMap<u16> = StrMap::new();
        let mut i: usize = 0;
        while i < entries.len()
            invariant
                i <= es.len(),
                es == entries@,
                es == white_list.devices.entries_spec(),
                res@ == Map::new(
                    |k: Seq<char>| exists|j: int| 0 <= j < i && #[trigger] es[j].0@ == k,
                    |k: Seq<char>| 0u16,
                ),
                send@ == res@,
            decreases es.len() - i,
        {
            let key = entries[i].0.clone();
            let ghost k = key@;
            res.insert(key.clone(), 0);
            send.insert(key, 0);
            i = i + 1;
            assert(res@ =~= Map::new(
                |q: Seq<char>| exists|j: int| 0 <= j < i && #[trigger] es[j].0@ == q,
                |q: Seq<char>| 0u16,
            )) by {
                assert forall|q: Seq<char>|
                    (exists|j: int| 0 <= j < i && #[trigger] es[j].0@ == q) implies res@.contains_key(
                    q,
                ) by {
                    let j = choose|j: int| 0 <= j < i && #[trigger] es[j].0@ == q;
                    if j < i - 1 {
                        assert(exists|j2: int| 0 <= j2 < i - 1 && #[trigger] es[j2].0@ == q);
                    }
                }
                assert forall|q: Seq<char>| res@.contains_key(q) implies (exists|j: int|
                    0 <= j < i && #[trigger] es[j].0@ == q) by {
                    if q != k {
                        let j = choose|j: int| 0 <= j < i - 1 && #[trigger] es[j].0@ == q;
                        assert(0 <= j < i);
                    } else {
                        assert(es[i - 1].0@ == q);
                    }
                }
            }
        }
        assert(res@ =~= zero_counts(white_list@)) by {
            assert forall|q: Seq<char>| res@.contains_key(q) <==> white_list@.contains_key(q) by {
                lemma_map_of_dom(es, q);
            }
        }
        self.test.res = res;
        self.test.send = send;
        self.test.flag = false;
        self.test.interval = interval;
        self.test.duration = duration;
    }

    /// Starts a stopped test; tells whether it did (the test runner must then be told).
    pub fn start_test(&mut self) -> (started: bool)
        ensures
            started == !old(self)@.flag,
            final(self)@ == (TestView { flag: true, ..old(self)@ }),
    {
        if self.test.flag == true {
            return false;
        }
        self.test.flag = true;
        true
    }

    /// Counts an answer of `mac` while the test runs.
    pub fn recode_rx(&mut self, mac: String)
        requires
            count_fits(old(self)@.flag, old(self)@.res, mac@),
        ensures
            final(self)@ == (TestView { res: count_one(old(self)@.flag, old(self)@.res, mac@), ..old(self)@ }),
    {
        if self.test.flag == false {
            return;
        }
        let time: u16 = match self.test.res.get(mac.as_str()) {
            Some(d) => *d,
            None => return ,
        };
        self.test.res.insert(mac, time + 1);
    }

    /// Counts a query sent to `mac` while the test runs.
    pub fn recode_tx(&mut self, mac: String)
        requires
            count_fits(old(self)@.flag, old(self)@.send, mac@),
        ensures
            final(self)@ == (TestView { send: count_one(old(self)@.flag, old(self)@.send, mac@), ..old(self)@ }),
    {
        if self.test.flag == false {
            return;
        }
        let time: u16 = match self.test.send.get(mac.as_str()) {
            Some(d) => *d + 1,
            None => return ,
        };
        self.test.send.insert(mac, time);
    }

    /// Stops a running test; tells whether it did (the test runner must then be told).
    pub fn stop_test(&mut self) -> (stopped: bool)
        ensures
            stopped == old(self)@.flag,
            final(self)@ == (TestView { flag: false, ..old(self)@ }),
    {
        if self.test.flag == false {
            return false;
        }
        self.test.flag = false;
        true
    }
}


/// Whether the test runner carries out a test that it was handed: it must be started,
/// query every four seconds or less often, and last long enough to query each node
/// once (the node count taken modulo 2^16).
pub open spec fn test_runs(flag: bool, interval: u16, duration: u16, nodes: nat) -> bool {
    flag && interval >= 4 && duration >= (nodes % 65536) * interval
}

/// Whether `test_runs` can be decided without the 16-bit product overflowing.
pub open spec fn test_runs_fits(flag: bool, interval: u16, nodes: nat) -> bool {
    flag && interval >= 4 ==> (nodes % 65536) * interval <= u16::MAX
}

/// Decides whether the test runner carries out `test`.
pub fn runner_accepts(test: &Test) -> (r: bool)
    requires
        test_runs_fits(test.flag, test.interval, test.send@.len()),
    ensures
        r == test_runs(test.flag, test.interval, test.duration, test.send@.len()),
{
    if test.flag == false || test.interval < 4 {
        return false;
    }
    let n: u16 = (test.send.len() % 65536) as u16;
    !(test.duration < n * test.interval)
}

/// The MAC texts of the nodes that `test` queries, in entry order.
pub fn runner_nodes(test: &Test) -> (nodes: Vec<String>)
    ensures
        nodes@.map_values(|m: String| m@) == test.send.entries_spec().map_values(
            |e: (String, u16)| e.0@,
        ),
{
    let entries = test.send.entries();
    let mut nodes: Vec<String> = Vec::new();
    let mut i: usize = 0;
    while i < entries.len()
        invariant
            i <= entries@.len(),
            entries@ == test.send.entries_spec(),
            nodes@.map_values(|m: String| m@) =~= entries@.take(i as int).map_values(
                |e: (String, u16)| e.0@,
            ),
        decreases entries@.len() - i,
    {
        let ghost before = nodes@;
        nodes.push(entries[i].0.clone());
        assert(nodes@.map_values(|m: String| m@) =~= before.map_values(|m: String| m@).push(
            entries@[i as int].0@,
        ));
        i = i + 1;
        assert(nodes@.map_values(|m: String| m@) =~= entries@.take(i as int).map_values(
            |e: (String, u16)| e.0@,
        ));
    }
    assert(entries@.take(i as int) =~= entries@);
    nodes
}

/// Number of queries of a test that is at second `time`: one at each multiple of
/// `interval` below `duration`.
pub open spec fn query_count(interval: nat, duration: nat, time: nat) -> nat
    decreases (if time < duration { duration - time } else { 0 }),
    when interval > 0
{
    if time < duration {
        1 + query_count(interval, duration, time + interval)
    } else {
        0
    }
}

/// Whether counting the seconds of a test from `time` on stays within 16 bits.
pub open spec fn schedule_fits(interval: nat, duration: nat, time: nat) -> bool
    decreases (if time < duration { duration - time } else { 0 }),
    when interval > 0
{
    time >= duration || (time + interval <= u16::MAX && schedule_fits(interval, duration, time + interval))
}

/// The nodes that a test queries, in order: the nodes in turn, one query each
/// `interval` seconds until `duration` seconds have passed; none at all without nodes.
pub open spec fn schedule_spec(nodes: Seq<Seq<char>>, interval: nat, duration: nat) -> Seq<Seq<char>> {
    if nodes.len() == 0 {
        seq![]
    } else {
        Seq::new(query_count(interval, duration, 0), |k: int| nodes[k % (nodes.len() as int)])
    }
}

/// The order in which the test runner queries the nodes.
pub fn runner_schedule(nodes: &Vec<String>, interval: u16, duration: u16) -> (order: Vec<String>)
    requires
        interval > 0,
        nodes@.len() > 0 ==> schedule_fits(interval as nat, duration as nat, 0),
    ensures
        order@.map_values(|m: String| m@) == schedule_spec(
            nodes@.map_values(|m: String| m@),
            interval as nat,
            duration as nat,
        ),
{
    let ghost ns = nodes@.map_values(|m: String| m@);
    let mut order: Vec<String> = Vec::new();
    if nodes.len() == 0 {
        assert(order@.map_values(|m: String| m@) =~= seq![]);
        return order;
    }
    let mut time: u16 = 0;
    let mut index: usize = 0;
    assert(0int % (nodes@.len() as int) == 0) by (nonlinear_arith)
        requires
            nodes@.len() > 0,
    ;
    while time < duration
        invariant
            nodes@.len() > 0,
            ns == nodes@.map_values(|m: String| m@),
            interval > 0,
            index < nodes.len(),
            index as int == (order@.len() as int) % (nodes@.len() as int),
            schedule_fits(interval as nat, duration as nat, time as nat),
            query_count(interval as nat, duration as nat, 0) == order@.len() + query_count(
                interval as nat,
                duration as nat,
                time as nat,
            ),
            order@.map_values(|m: String| m@) =~= Seq::new(
                order@.len(),
                |k: int| ns[k % (nodes@.len() as int)],
            ),
        decreases (if time < duration { duration - time } else { 0 }),
    {
        let ghost before = order@;
        order.push(nodes[index].clone());
        assert(order@.map_values(|m: String| m@) =~= Seq::new(
            order@.len(),
            |k: int| ns[k % (nodes@.len() as int)],
        )) by {
            assert(order@.map_values(|m: String| m@) =~= before.map_values(|m: String| m@).push(
                ns[index as int],
            ));
        }
        time = time + interval;
        proof {
            let n = nodes@.len() as int;
            let l = before.len() as int;
            assert(((l + 1) % n) == if index + 1 == n { 0 } else { index + 1 }) by (nonlinear_arith)
                requires
                    index == l % n,
                    0 <= index < n,
                    n > 0,
                    l >= 0,
            ;
        }
        index = index + 1;
        if index >= nodes.len() {
            index = 0;
        }
    }
    order
}


/// Starting a stopped test and stopping it again gives back the stopped test, counts
/// and settings included; counting does nothing while the test is stopped.
pub proof fn lemma_start_stop_round_trip(v: TestView, mac: Seq<char>)
    requires
        !v.flag,
    ensures
        (TestView { flag: false, ..(TestView { flag: true, ..v }) }) == v,
        count_one(v.flag, v.res, mac) == v.res,
        count_one(v.flag, v.send, mac) == v.send,
{
}

/// While a test runs, counting an event of a counted node raises its count by one
/// and leaves the other counts alone.
pub proof fn lemma_count_one(m: Map<Seq<char>, u16>, mac: Seq<char>, other: Seq<char>)
    requires
        m.contains_key(mac),
        m[mac] < u16::MAX,
        other != mac,
    ensures
        count_one(true, m, mac)[mac] == m[mac] + 1,
        count_one(true, m, mac).contains_key(other) == m.contains_key(other),
        m.contains_key(other) ==> count_one(true, m, mac)[other] == m[other],
        count_one(true, m, mac).dom() == m.dom(),
{
    assert(count_one(true, m, mac).dom() =~= m.dom());
}


/// Whether counting the seconds of a test stays within 16 bits.
pub fn runner_schedule_fits(interval: u16, duration: u16) -> (ok: bool)
    requires
        interval > 0,
    ensures
        ok == schedule_fits(interval as nat, duration as nat, 0),
{
    let mut time: u16 = 0;
    while time < duration
        invariant
            interval > 0,
            schedule_fits(interval as nat, duration as nat, 0) == schedule_fits(
                interval as nat,
                duration as nat,
                time as nat,
            ),
        decreases (if time < duration { duration - time } else { 0 }),
    {
        if time > u16::MAX - interval {
            return false;
        }
        time = time + interval;
    }
    true
}

/// Mesh command that asks a node to answer during a network test.
pub const CMD_NET_TEST: u8 = 23;

/// The network-test query to the node whose MAC text is `mac`.
pub fn net_test_query(token: &mut Token, mac: &String) -> (p: Publish)
    requires
        command_fits(hex_bytes(mac@).len()),
        (hex_bytes(mac@).len() + 13) % 4294967296 < 2147483648,
    ensures
        final(token).token == next_token(old(token).token),
        p@ == (TXTOPIC@, PayloadView::Mesh(
            message_for(old(token).token, command_frame(CMD_NET_TEST, hex_bytes(mac@))),
        )),
{
    let data = trans_to_vec(mac);
    let frame = wrap_command(CMD_NET_TEST, data.as_slice());
    assert(frame@.len() == data@.len() + 13);
    mesh_publish(token, TXTOPIC, frame.as_slice())
}

} // verus!

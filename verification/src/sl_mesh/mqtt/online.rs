use vstd::prelude::*;

verus! {

/// Whether no text occurs twice.
pub open spec fn no_duplicates(s: Seq<Seq<char>>) -> bool {
    forall|i: int, j: int| 0 <= i < j < s.len() ==> #[trigger] s[i] != #[trigger] s[j]
}

/// The list after a node comes online: unchanged when the node is listed already,
/// else with the node appended.
pub open spec fn online_after_add(s: Seq<Seq<char>>, mac: Seq<char>) -> Seq<Seq<char>> {
    if s.contains(mac) {
        s
    } else {
        s.push(mac)
    }
}

/// Position of the first occurrence of `mac`, if any.
pub open spec fn first_index(s: Seq<Seq<char>>, mac: Seq<char>) -> Option<int> {
    if s.contains(mac) {
        Some(choose|i: int| 0 <= i < s.len() && s[i] == mac && forall|j: int| 0 <= j < i ==> s[j] != mac)
    } else {
        None
    }
}

/// The list after a node goes offline: its first occurrence removed.
pub open spec fn online_after_remove(s: Seq<Seq<char>>, mac: Seq<char>) -> Seq<Seq<char>> {
    match first_index(s, mac) {
        Some(i) => s.remove(i),
        None => s,
    }
}

/// The MAC texts of the nodes that are online, in the order in which they came online.
pub struct Online {
    pub online: Vec<String>,
}

impl View for Online {
    type V = Seq<Seq<char>>;

    open spec fn view(&self) -> Seq<Seq<char>> {
        self.online@.map_values(|m: String| m@)
    }
}

/// The JSON text that `rustc_serialize::json::encode` gives for a list of strings.
pub uninterp spec fn json_string_list(list: Seq<Seq<char>>) -> Seq<char>;

/// Renders a list of strings as JSON.
///
/// Trusted: calls `rustc_serialize::json::encode` on a `Vec<String>` and claims that
/// its text is `json_string_list` of the strings: the encoder's output depends on the
/// strings alone. The `unwrap` does not panic there: the encoder fails only on a map
/// key that is not a string, and writing into a `String` does not fail.
#[verifier::external_body]
fn encode_string_list(list: &Vec<String>) -> (s: String)
    ensures
        s@ == json_string_list(list@.map_values(|m: String| m@)),
{
    rustc_serialize::json::encode(list).unwrap()
}

impl Online {
    pub fn new() -> (o: Online)
        ensures
            o@ == Seq::<Seq<char>>::empty(),
    {
        let o = Online { online: Vec::new() };
        assert(o@ =~= Seq::<Seq<char>>::empty());
        o
    }

    fn position(&self, mac: &String) -> (r: Option<usize>)
        ensures
            r matches Some(i) ==> i < self@.len() && self@[i as int] == mac@ && forall|j: int|
                0 <= j < i ==> self@[j] != mac@,
            r is None ==> !self@.contains(mac@),
    {
        let mut i: usize = 0;
        while i < self.online.len()
            invariant
                i <= self@.len(),
                self@.len() == self.online@.len(),
                forall|j: int| 0 <= j < i ==> self@[j] != mac@,
            decreases self@.len() - i,
        {
            if self.online[i] == *mac {
                return Some(i);
            }
            i = i + 1;
        }
        None
    }

    pub fn add(&mut self, mac: String)
        ensures
            final(self)@ == online_after_add(old(self)@, mac@),
    {
        match self.position(&mac) {
            Some(_) => {},
            None => {
                let ghost before = self.online@;
                self.online.push(mac);
                assert(self@ =~= before.map_values(|m: String| m@).push(mac@));
            },
        }
    }

    pub fn remove(&mut self, mac: String)
        ensures
            final(self)@ == online_after_remove(old(self)@, mac@),
    {
        match self.position(&mac) {
            Some(i) => {
                let ghost before = self@;
                proof {
                    let c = choose|k: int|
                        0 <= k < before.len() && before[k] == mac@ && forall|j: int|
                            0 <= j < k ==> before[j] != mac@;
                    assert(c == i as int) by {
                        if c < i {
                            assert(before[c] != mac@);
                        } else if c > i {
                            assert(before[i as int] != mac@);
                        }
                    }
                }
                self.online.remove(i);
                assert(self@ =~= before.remove(i as int));
            },
            None => {},
        }
    }

    pub fn get(&self) -> (s: String)
        ensures
            s@ == json_string_list(self@),
    {
        encode_string_list(&self.online)
    }
}

pub fn get_online(online: &Online) -> (s: String)
    ensures
        s@ == json_string_list(online@),
{
    online.get()
}

pub fn node_in(online: &mut Online, mac: &String)
    ensures
        final(online)@ == online_after_add(old(online)@, mac@),
{
    online.add(mac.clone());
}

pub fn node_out(online: &mut Online, mac: &String)
    ensures
        final(online)@ == online_after_remove(old(online)@, mac@),
{
    online.remove(mac.clone());
}


/// Bringing a node online or taking it offline keeps every node listed at most once.
pub proof fn lemma_online_lists_each_node_once(s: Seq<Seq<char>>, mac: Seq<char>)
    requires
        no_duplicates(s),
    ensures
        no_duplicates(online_after_add(s, mac)),
        no_duplicates(online_after_remove(s, mac)),
{
    if !s.contains(mac) {
        let t = s.push(mac);
        assert forall|i: int, j: int| 0 <= i < j < t.len() implies #[trigger] t[i] != #[trigger] t[j] by {
            if j == s.len() {
                assert(t[i] == s[i]);
            }
        }
    }
    match first_index(s, mac) {
        Some(k) => {
            let t = s.remove(k);
            assert forall|i: int, j: int| 0 <= i < j < t.len() implies #[trigger] t[i] != #[trigger] t[j] by {
                let i2 = if i < k { i } else { i + 1 };
                let j2 = if j < k { j } else { j + 1 };
                assert(t[i] == s[i2] && t[j] == s[j2]);
            }
        },
        None => {},
    }
}

/// A node that comes online is listed; bringing it online again changes nothing; a
/// node that goes offline is no longer listed (each node being listed at most once).
pub proof fn lemma_online_in_out(s: Seq<Seq<char>>, mac: Seq<char>)
    requires
        no_duplicates(s),
    ensures
        online_after_add(s, mac).contains(mac),
        online_after_add(online_after_add(s, mac), mac) == online_after_add(s, mac),
        !online_after_remove(s, mac).contains(mac),
{
    let a = online_after_add(s, mac);
    if !s.contains(mac) {
        assert(a[s.len() as int] == mac);
    }
    match first_index(s, mac) {
        Some(k) => {
            let t = s.remove(k);
            if t.contains(mac) {
                let i = choose|i: int| 0 <= i < t.len() && t[i] == mac;
                let i2 = if i < k { i } else { i + 1 };
                assert(t[i] == s[i2]);
                assert(s[k] == mac);
            }
        },
        None => {},
    }
}

} // verus!

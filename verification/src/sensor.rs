//! The sensor client: a stable sender identity plus the set of UDP
//! destination addresses a reading is delivered to. Addresses are kept as
//! plain values (two 64-bit halves of a 16-byte address, a port, and a
//! family flag) so the set logic is fully checked; turning them into real
//! sockets is the caller's concern.

use vstd::prelude::*;

verus! {

/// One sensor reading as the receiving device understands it: 32 frequency
/// buckets (low to high), plus three scaled scalar summaries, all already
/// mapped onto the unsigned 16-bit range.
pub struct AudioData {
    pub freq_buckets: [u16; 32],
    pub energy_avg: u16,
    pub max_freq_magnitude: u16,
    pub max_freq: u16,
}

/// A destination address held as plain values. An IPv4 address occupies the
/// low four bytes of `ip_lo` with `is_v6` false; an IPv6 address fills both
/// halves, big-endian, with `is_v6` true.
#[derive(PartialEq, Eq, Structural, Clone, Copy, Debug)]
pub struct TargetAddr {
    pub ip_hi: u64,
    pub ip_lo: u64,
    pub port: u16,
    pub is_v6: bool,
}

/// Owns the sender identity and the destination set. Destinations form a
/// set: insertion order is kept internally but duplicates are collapsed,
/// and adding an existing address or removing an absent one is a no-op.
pub struct SensorClient {
    sender_id: u32,
    frame_type: u32,
    targets: Vec<TargetAddr>,
}

impl SensorClient {
    /// The four-byte sender identity carried in every frame header.
    pub closed spec fn spec_sender_id(&self) -> u32 {
        self.sender_id
    }

    /// The constant packet-type tag identifying a sensor-data frame.
    pub closed spec fn spec_frame_type(&self) -> u32 {
        self.frame_type
    }

    /// The destinations in insertion order.
    pub closed spec fn targets_seq(&self) -> Seq<TargetAddr> {
        self.targets@
    }

    /// The destinations as a set: the order never matters to a send.
    pub open spec fn target_set(&self) -> Set<TargetAddr> {
        self.targets_seq().to_set()
    }

    /// The destination list holds no duplicates.
    pub open spec fn wf(&self) -> bool {
        forall|i: int, j: int|
            0 <= i < j < self.targets_seq().len() ==> self.targets_seq()[i] != self.targets_seq()[j]
    }

    pub fn new(sender_id: u32) -> (client: SensorClient)
        ensures
            client.wf(),
            client.spec_sender_id() == sender_id,
            client.spec_frame_type() == 50,
            client.targets_seq() == Seq::<TargetAddr>::empty(),
    {
        SensorClient { sender_id, frame_type: 50, targets: Vec::new() }
    }

    /// Whether `addr` is currently a destination.
    pub fn has_target(&self, addr: &TargetAddr) -> (present: bool)
        ensures
            present == self.targets_seq().contains(*addr),
    {
        let mut i: usize = 0;
        while i < self.targets.len()
            invariant
                i <= self.targets@.len(),
                forall|k: int| 0 <= k < i ==> self.targets@[k] != *addr,
            decreases self.targets@.len() - i,
        {
            if self.targets[i] == *addr {
                return true;
            }
            i += 1;
        }
        false
    }

    /// Adds a destination; a no-op when the address is already present.
    pub fn add_target(&mut self, addr: TargetAddr)
        requires
            old(self).wf(),
        ensures
            final(self).wf(),
            final(self).spec_sender_id() == old(self).spec_sender_id(),
            final(self).spec_frame_type() == old(self).spec_frame_type(),
            final(self).targets_seq() == if old(self).targets_seq().contains(addr) {
                old(self).targets_seq()
            } else {
                old(self).targets_seq().push(addr)
            },
            final(self).target_set() == old(self).target_set().insert(addr),
    {
        if !self.has_target(&addr) {
            self.targets.push(addr);
        }
        proof {
            lemma_to_set_insert(old(self).targets_seq(), addr);
        }
    }

    /// Removes a destination; a no-op when the address is absent.
    pub fn remove_target(&mut self, addr: &TargetAddr)
        requires
            old(self).wf(),
        ensures
            final(self).wf(),
            final(self).spec_sender_id() == old(self).spec_sender_id(),
            final(self).spec_frame_type() == old(self).spec_frame_type(),
            final(self).targets_seq() == old(self).targets_seq().remove_value(*addr),
            !final(self).targets_seq().contains(*addr),
            final(self).target_set() == old(self).target_set().remove(*addr),
    {
        let mut i: usize = 0;
        while i < self.targets.len()
            invariant
                i <= self.targets@.len(),
                forall|k: int| 0 <= k < i ==> self.targets@[k] != *addr,
                *self == *old(self),
                old(self).wf(),
            decreases self.targets@.len() - i,
        {
            if self.targets[i] == *addr {
                self.targets.remove(i);
                proof {
                    lemma_remove_found(old(self).targets_seq(), *addr, i as int);
                }
                return;
            }
            i += 1;
        }
        proof {
            lemma_remove_absent(old(self).targets_seq(), *addr);
        }
    }

    /// The destinations in insertion order, for the I/O layer to attempt
    /// one independent send each.
    pub fn targets(&self) -> (list: &Vec<TargetAddr>)
        ensures
            list@ == self.targets_seq(),
    {
        &self.targets
    }

    /// The sender identity this client was created with.
    pub fn sender_id(&self) -> (id: u32)
        ensures
            id == self.spec_sender_id(),
    {
        self.sender_id
    }

    /// Builds the 104-byte frame that `send` delivers to every destination:
    /// this client's packet-type tag and sender identity, the caller's
    /// timestamp, and the reading. The caller performs the actual sends, one
    /// independent attempt per destination in `targets`.
    pub fn encode_frame(
        &self,
        audio: &AudioData,
        accel: &[i16; 3],
        light: u16,
        analog: &[u16; 5],
        ts_millis: u32,
    ) -> (frame: Vec<u8>)
        ensures
            frame@.len() == 104,
            crate::protocol::encodes(
                frame@,
                self.spec_frame_type(),
                self.spec_sender_id(),
                ts_millis,
                *audio,
                *accel,
                light,
                *analog,
            ),
    {
        crate::protocol::encode_reading(
            self.frame_type,
            self.sender_id,
            ts_millis,
            audio,
            accel,
            light,
            analog,
        )
    }
}

/// Pushing a value onto a sequence inserts it into the sequence's set.
proof fn lemma_to_set_insert(s: Seq<TargetAddr>, v: TargetAddr)
    ensures
        s.push(v).to_set() == s.to_set().insert(v),
        s.contains(v) ==> s.push(v).to_set() == s.to_set(),
{
    assert forall|x: TargetAddr| s.push(v).to_set().contains(x) <==> s.to_set().insert(v).contains(x) by {
        if s.push(v).contains(x) {
            let i = choose|i: int| 0 <= i < s.push(v).len() && s.push(v)[i] == x;
            if i < s.len() {
                assert(s[i] == x);
            }
        }
        if s.contains(x) {
            let i = choose|i: int| 0 <= i < s.len() && s[i] == x;
            assert(s.push(v)[i] == x);
        }
        if x == v {
            assert(s.push(v)[s.len() as int] == x);
        }
    }
    assert(s.push(v).to_set() =~= s.to_set().insert(v));
    if s.contains(v) {
        assert(s.to_set().contains(v));
        assert(s.to_set().insert(v) =~= s.to_set());
    }
}

/// Removing the sole occurrence of a value from a duplicate-free sequence
/// removes it from the sequence's set and keeps every other element.
proof fn lemma_remove_found(s: Seq<TargetAddr>, v: TargetAddr, i: int)
    requires
        0 <= i < s.len(),
        s[i] == v,
        forall|p: int, q: int| 0 <= p < q < s.len() ==> s[p] != s[q],
        forall|k: int| 0 <= k < i ==> s[k] != v,
    ensures
        s.remove(i) == s.remove_value(v),
        forall|p: int, q: int| 0 <= p < q < s.remove(i).len() ==> s.remove(i)[p] != s.remove(i)[q],
        !s.remove(i).contains(v),
        s.remove(i).to_set() == s.to_set().remove(v),
{
    assert(s.index_of_first(v) == Some(i)) by {
        s.index_of_first_ensures(v);
        let j = s.index_of_first(v).unwrap();
        assert(s[j] == v);
        if j < i {
            assert(s[j] != v);
        }
        if i < j {
            assert(s[i] != s[j]);
        }
    }
    let r = s.remove(i);
    assert forall|k: int| 0 <= k < r.len() implies r[k] != v by {
        if k < i {
            assert(r[k] == s[k]);
        } else {
            assert(r[k] == s[k + 1]);
        }
    }
    assert forall|x: TargetAddr| r.to_set().contains(x) <==> s.to_set().remove(v).contains(x) by {
        if r.contains(x) {
            let k = choose|k: int| 0 <= k < r.len() && r[k] == x;
            if k < i {
                assert(s[k] == x);
            } else {
                assert(s[k + 1] == x);
            }
            assert(s.contains(x));
            assert(x != v);
        }
        if s.contains(x) && x != v {
            let k = choose|k: int| 0 <= k < s.len() && s[k] == x;
            if k < i {
                assert(r[k] == x);
            } else {
                assert(k != i);
                assert(r[k - 1] == x);
            }
            assert(r.contains(x));
        }
    }
    assert(r.to_set() =~= s.to_set().remove(v));
}

/// Removing an absent value changes nothing.
proof fn lemma_remove_absent(s: Seq<TargetAddr>, v: TargetAddr)
    requires
        !s.contains(v),
    ensures
        s.remove_value(v) == s,
        s.to_set() == s.to_set().remove(v),
{
    s.index_of_first_ensures(v);
    assert(s.to_set() =~= s.to_set().remove(v)) by {
        assert(!s.to_set().contains(v));
    }
}

} // verus!

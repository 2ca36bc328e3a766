//! The channel broker: the single writer over the registry of live
//! channels and their member sessions. It enforces per-channel capacity
//! and per-member quotas, routes client messages to the other members of
//! a channel, and issues the terminate fan-out that ends a channel.
//!
//! The broker itself performs no I/O: each operation returns the frames
//! to push, as `Delivery` values, and the caller owns the sockets.

use vstd::prelude::*;

verus! {

use vstd::string::{StringSliceAdditionalSpecFns, StrSliceExecFns};
use vstd::utf8::encode_utf8;
use crate::channelid::{ChannelID, encoded_ascii};
use crate::json::{json_string, append_json_string, append_literal};
use crate::meta::SenderData;
use crate::metrics::{MetricCounters, bump};
use crate::settings::Settings;

/// What a frame pushed to a session means.
#[derive(Clone, Copy, Debug, PartialEq, Eq, Structural)]
pub enum MessageType {
    /// An ordinary text frame.
    Text,
    /// The broker-initiated end of the session.
    Terminate,
}

/// A frame bound for one session, as the session actors exchange it.
pub struct TextMessage(pub MessageType, pub String);

/// Why a session was disconnected.
#[derive(Clone, Copy, Debug, PartialEq, Eq, Structural)]
pub enum DisconnectReason {
    /// The client closed, or no reason was recorded.
    Normal,
    /// A socket failure.
    ConnectionError,
    /// An idle or lifespan deadline passed.
    Timeout,
}

impl DisconnectReason {
    /// The reason as log lines show it.
    pub open spec fn text(self) -> Seq<char> {
        match self {
            DisconnectReason::Normal => "Client Disconnect"@,
            DisconnectReason::ConnectionError => "Connection Error"@,
            DisconnectReason::Timeout => "Connection Timeout"@,
        }
    }

    /// The reason as log lines show it.
    pub fn as_str(&self) -> (r: &'static str)
        ensures
            r@ == self.text(),
    {
        match self {
            DisconnectReason::Normal => "Client Disconnect",
            DisconnectReason::ConnectionError => "Connection Error",
            DisconnectReason::Timeout => "Connection Timeout",
        }
    }
}

/// One member of a channel, as the broker tracks it.
pub struct Channel {
    /// The member's session id: non-zero, unique across the broker.
    pub session_id: u64,
    /// When the member joined, in caller-supplied milliseconds.
    pub started: u64,
    /// Messages relayed to this member so far.
    pub msg_count: u64,
    /// Bytes relayed to this member so far.
    pub data_exchanged: u64,
    /// The member's derived remote address, when one was derived.
    pub remote: Option<String>,
}

/// A session asks to join (or create) a channel.
pub struct Connect {
    /// The channel to join.
    pub channel: ChannelID,
    /// The joiner's derived remote address.
    pub remote: Option<String>,
    /// Whether this request may create the channel.
    pub initial_connect: bool,
}

/// A session announces that it is gone.
pub struct Disconnect {
    /// The channel it belonged to.
    pub channel: ChannelID,
    /// Its session id.
    pub id: u64,
    /// Why it ended.
    pub reason: DisconnectReason,
}

/// A text frame from a client, to be relayed to its channel peers.
pub struct ClientMessage {
    /// The sender's session id.
    pub id: u64,
    /// Text, or a terminate control.
    pub message_type: MessageType,
    /// The message body.
    pub msg: String,
    /// The channel to relay within.
    pub channel: ChannelID,
    /// The sender's metadata, shown to the recipients.
    pub sender: SenderData,
}

/// Ask for the identifiers of the live channels.
pub struct ListChannels;

/// One frame the caller must push to one session.
pub struct Delivery {
    /// The recipient's session id.
    pub id: u64,
    /// What the frame means.
    pub kind: MessageType,
    /// The frame's bytes.
    pub body: Vec<u8>,
}

/// A live channel: its identifier and its members.
pub struct ChannelEntry {
    /// The channel identifier.
    pub id: ChannelID,
    /// The members, in join order.
    pub members: Vec<Channel>,
}

/// The broker.
pub struct ChannelServer {
    /// The live channels, each with at least one member.
    pub channels: Vec<ChannelEntry>,
    /// The configuration the broker enforces.
    pub settings: Settings,
    /// The counters the broker bumps.
    pub metrics: MetricCounters,
}

/// The payload of a terminate control frame.
pub open spec fn terminate_body() -> Seq<u8> {
    seq![4u8]
}

/// The view of a delivery list: recipient, kind, body bytes.
pub open spec fn dview(ds: Seq<Delivery>) -> Seq<(u64, MessageType, Seq<u8>)> {
    ds.map_values(|d: Delivery| (d.id, d.kind, d.body@))
}

/// The first channel with the given identifier bytes, or -1.
pub open spec fn find_chan(chs: Seq<ChannelEntry>, id: Seq<u8>) -> int
    decreases chs.len(),
{
    if chs.len() == 0 {
        -1
    } else if chs[0].id.bytes() == id {
        0
    } else {
        let r = find_chan(chs.skip(1), id);
        if r < 0 {
            -1
        } else {
            r + 1
        }
    }
}

/// `find_chan` returns the first match, or -1 when there is none.
pub proof fn lemma_find_chan(chs: Seq<ChannelEntry>, id: Seq<u8>)
    ensures
        find_chan(chs, id) == -1 ==> forall|i: int|
            0 <= i < chs.len() ==> (#[trigger] chs[i]).id.bytes() != id,
        find_chan(chs, id) >= 0 ==> {
            let r = find_chan(chs, id);
            &&& r < chs.len()
            &&& chs[r].id.bytes() == id
        },
    decreases chs.len(),
{
    if chs.len() > 0 && chs[0].id.bytes() != id {
        lemma_find_chan(chs.skip(1), id);
        let r1 = find_chan(chs.skip(1), id);
        if r1 < 0 {
            assert forall|i: int| 0 <= i < chs.len() implies (#[trigger] chs[i]).id.bytes()
                != id by {
                if i > 0 {
                    assert(chs[i] == chs.skip(1)[i - 1]);
                }
            }
        } else {
            assert(chs[r1 + 1] == chs.skip(1)[r1]);
        }
    }
}

/// When `i` is the first match, `find_chan` returns `i`.
pub proof fn lemma_find_chan_at(chs: Seq<ChannelEntry>, id: Seq<u8>, i: int)
    requires
        0 <= i < chs.len(),
        chs[i].id.bytes() == id,
        forall|j: int| 0 <= j < i ==> (#[trigger] chs[j]).id.bytes() != id,
    ensures
        find_chan(chs, id) == i,
    decreases chs.len(),
{
    if i > 0 {
        assert forall|j: int| 0 <= j < i - 1 implies (#[trigger] chs.skip(1)[j]).id.bytes()
            != id by {
            assert(chs.skip(1)[j] == chs[j + 1]);
        }
        assert(chs.skip(1)[i - 1] == chs[i]);
        lemma_find_chan_at(chs.skip(1), id, i - 1);
    }
}

/// When no channel matches, `find_chan` returns -1.
pub proof fn lemma_find_chan_none(chs: Seq<ChannelEntry>, id: Seq<u8>)
    requires
        forall|j: int| 0 <= j < chs.len() ==> (#[trigger] chs[j]).id.bytes() != id,
    ensures
        find_chan(chs, id) == -1,
    decreases chs.len(),
{
    if chs.len() > 0 {
        assert forall|j: int| 0 <= j < chs.skip(1).len() implies (#[trigger] chs.skip(
            1,
        )[j]).id.bytes() != id by {
            assert(chs.skip(1)[j] == chs[j + 1]);
        }
        lemma_find_chan_none(chs.skip(1), id);
    }
}

/// Is a session id assigned to any member of any channel?
pub open spec fn id_in_use(chs: Seq<ChannelEntry>, sid: u64) -> bool {
    all_ids(chs).contains(sid)
}

impl ChannelServer {
    /// The registry's shape: channel ids unique, no empty channel, every
    /// session id non-zero and unique across the whole registry.
    pub open spec fn wf(self) -> bool {
        &&& forall|i: int, j: int|
            0 <= i < j < self.channels@.len() ==> (#[trigger] self.channels@[i]).id.bytes() != (
            #[trigger] self.channels@[j]).id.bytes()
        &&& forall|i: int|
            0 <= i < self.channels@.len() ==> (#[trigger] self.channels@[i]).members@.len() >= 1
        &&& forall|i: int, k: int|
            0 <= i < self.channels@.len() && 0 <= k < (#[trigger] self.channels@[i]).members@.len()
                ==> (#[trigger] self.channels@[i].members@[k]).session_id != 0
        &&& forall|i: int, k: int, i2: int, k2: int|
            0 <= i < self.channels@.len() && 0 <= k < (#[trigger] self.channels@[i]).members@.len()
                && 0 <= i2 < self.channels@.len() && 0 <= k2 < (
            #[trigger] self.channels@[i2]).members@.len() && (i != i2 || k != k2) ==> (
            #[trigger] self.channels@[i].members@[k]).session_id != (
            #[trigger] self.channels@[i2].members@[k2]).session_id
    }

    /// A fresh broker: no channels, zeroed counters.
    pub fn new(settings: Settings) -> (r: ChannelServer)
        ensures
            r.wf(),
            r.channels@.len() == 0,
            r.settings == settings,
            r.metrics == MetricCounters::zero(),
    {
        ChannelServer { channels: Vec::new(), settings, metrics: MetricCounters::new() }
    }

    /// Find a channel by identifier.
    fn find_channel(&self, channel: &ChannelID) -> (r: Option<usize>)
        ensures
            match r {
                Some(i) => i < self.channels@.len() && find_chan(self.channels@, channel.bytes())
                    == i && self.channels@[i as int].id.bytes() == channel.bytes(),
                None => find_chan(self.channels@, channel.bytes()) == -1,
            },
    {
        let mut i: usize = 0;
        while i < self.channels.len()
            invariant
                i <= self.channels@.len(),
                forall|j: int|
                    0 <= j < i ==> (#[trigger] self.channels@[j]).id.bytes() != channel.bytes(),
            decreases self.channels@.len() - i,
        {
            if self.channels[i].id == *channel {
                proof {
                    lemma_find_chan_at(self.channels@, channel.bytes(), i as int);
                }
                return Some(i);
            }
            i = i + 1;
        }
        proof {
            lemma_find_chan_none(self.channels@, channel.bytes());
        }
        None
    }

    /// The identifiers of the live channels, in registry order.
    pub fn list_channels(&self) -> (r: Vec<ChannelID>)
        ensures
            r@.map_values(|c: ChannelID| c.bytes()) == self.channels@.map_values(
                |e: ChannelEntry| e.id.bytes(),
            ),
    {
        let mut r: Vec<ChannelID> = Vec::new();
        let mut i: usize = 0;
        while i < self.channels.len()
            invariant
                i <= self.channels@.len(),
                r@.len() == i,
                forall|j: int|
                    0 <= j < i ==> (#[trigger] r@[j]).bytes() == self.channels@[j].id.bytes(),
            decreases self.channels@.len() - i,
        {
            r.push(self.channels[i].id);
            i = i + 1;
        }
        proof {
            assert(r@.map_values(|c: ChannelID| c.bytes()) =~= self.channels@.map_values(
                |e: ChannelEntry| e.id.bytes(),
            ));
        }
        r
    }

    /// Kill a channel and terminate all participants: a terminate
    /// control goes to each member and the channel is dropped.
    /// Idempotent: an absent channel is left as it is.
    pub fn shutdown(&mut self, channel: &ChannelID) -> (r: Vec<Delivery>)
        requires
            old(self).wf(),
        ensures
            final(self).wf(),
            final(self).settings == old(self).settings,
            final(self).metrics == old(self).metrics,
            ({
                let ci = find_chan(old(self).channels@, channel.bytes());
                if ci < 0 {
                    final(self).channels@ == old(self).channels@ && r@.len() == 0
                } else {
                    &&& final(self).channels@ == old(self).channels@.remove(ci)
                    &&& dview(r@) == terminate_deliveries(old(self).channels@[ci].members@)
                }
            }),
    {
        let ci = match self.find_channel(channel) {
            None => {
                return Vec::new();
            },
            Some(i) => i,
        };
        let entry = self.channels.remove(ci);
        proof {
            lemma_remove_keeps_wf(*old(self), *self, ci as int);
        }
        terminate_all(&entry.members)
    }

    /// Remove one member; a member that was present receives a terminate
    /// control, and a channel left empty is dropped.
    pub fn disconnect(&mut self, channel: &ChannelID, id: u64) -> (r: Vec<Delivery>)
        requires
            old(self).wf(),
        ensures
            final(self).wf(),
            final(self).settings == old(self).settings,
            final(self).metrics == old(self).metrics,
            disconnect_outcome(
                old(self).channels@,
                final(self).channels@,
                channel.bytes(),
                id,
                dview(r@),
            ),
    {
        let ci = match self.find_channel(channel) {
            None => {
                return Vec::new();
            },
            Some(i) => i,
        };
        let mut entry = self.channels.remove(ci);
        let ghost ms = entry.members@;
        let mi = match find_member_exec(&entry.members, id) {
            None => {
                self.channels.insert(ci, entry);
                proof {
                    assert(self.channels@ =~= old(self).channels@);
                }
                return Vec::new();
            },
            Some(k) => k,
        };
        entry.members.remove(mi);
        let mut r: Vec<Delivery> = Vec::new();
        let mut body: Vec<u8> = Vec::new();
        body.push(4);
        proof {
            assert(body@ =~= terminate_body());
        }
        r.push(Delivery { id, kind: MessageType::Terminate, body });
        proof {
            assert(dview(r@) =~= seq![(id, MessageType::Terminate, terminate_body())]);
        }
        if entry.members.len() == 0 {
            proof {
                lemma_remove_keeps_wf(*old(self), *self, ci as int);
            }
            return r;
        }
        self.channels.insert(ci, entry);
        proof {
            assert forall|j: int|
                0 <= j < old(self).channels@.len() && j != ci implies self.channels@[j] == #[trigger] old(
                self,
            ).channels@[j] by {
                if j < ci {
                    assert(self.channels@[j] == old(self).channels@.remove(ci as int)[j]);
                } else {
                    assert(self.channels@[j] == old(self).channels@.remove(ci as int)[j - 1]);
                }
            }
            assert(members_updated(
                old(self).channels@,
                self.channels@,
                ci as int,
                ms.remove(mi as int),
            ));
            lemma_update_member_removal_keeps_wf(*old(self), *self, ci as int, mi as int);
        }
        r
    }
}

/// What removing one member leaves behind: an absent channel or member
/// changes nothing; otherwise the member gets one terminate control and
/// leaves, and a channel left empty is dropped.
pub open spec fn disconnect_outcome(
    pre: Seq<ChannelEntry>,
    post: Seq<ChannelEntry>,
    id_bytes: Seq<u8>,
    sid: u64,
    ds: Seq<(u64, MessageType, Seq<u8>)>,
) -> bool {
    let ci = find_chan(pre, id_bytes);
    if ci < 0 {
        post == pre && ds.len() == 0
    } else {
        let ms = pre[ci].members@;
        let mi = find_member(ms, sid);
        if mi < 0 {
            post == pre && ds.len() == 0
        } else {
            &&& ds == seq![(sid, MessageType::Terminate, terminate_body())]
            &&& if ms.len() == 1 {
                post == pre.remove(ci)
            } else {
                members_updated(pre, post, ci, ms.remove(mi))
            }
        }
    }
}

/// The registries agree except that channel `ci` now has members `ms`.
pub open spec fn members_updated(
    before: Seq<ChannelEntry>,
    after: Seq<ChannelEntry>,
    ci: int,
    ms: Seq<Channel>,
) -> bool {
    &&& after.len() == before.len()
    &&& forall|j: int| 0 <= j < before.len() && j != ci ==> after[j] == #[trigger] before[j]
    &&& 0 <= ci < before.len()
    &&& after[ci].id == before[ci].id
    &&& after[ci].members@ == ms
}

/// The first member with the given session id, or -1.
pub open spec fn find_member(ms: Seq<Channel>, sid: u64) -> int
    decreases ms.len(),
{
    if ms.len() == 0 {
        -1
    } else if ms[0].session_id == sid {
        0
    } else {
        let r = find_member(ms.skip(1), sid);
        if r < 0 {
            -1
        } else {
            r + 1
        }
    }
}

/// Scan for a member by session id.
fn find_member_exec(ms: &Vec<Channel>, sid: u64) -> (r: Option<usize>)
    ensures
        match r {
            Some(k) => k < ms@.len() && find_member(ms@, sid) == k && ms@[k as int].session_id
                == sid,
            None => find_member(ms@, sid) == -1,
        },
{
    let mut k: usize = 0;
    while k < ms.len()
        invariant
            k <= ms@.len(),
            forall|j: int| 0 <= j < k ==> (#[trigger] ms@[j]).session_id != sid,
        decreases ms@.len() - k,
    {
        if ms[k].session_id == sid {
            proof {
                lemma_find_member_at(ms@, sid, k as int);
            }
            return Some(k);
        }
        k = k + 1;
    }
    proof {
        lemma_find_member_none(ms@, sid);
    }
    None
}

/// When `i` is the first member with the id, `find_member` returns `i`.
pub proof fn lemma_find_member_at(ms: Seq<Channel>, sid: u64, i: int)
    requires
        0 <= i < ms.len(),
        ms[i].session_id == sid,
        forall|j: int| 0 <= j < i ==> (#[trigger] ms[j]).session_id != sid,
    ensures
        find_member(ms, sid) == i,
    decreases ms.len(),
{
    if i > 0 {
        assert forall|j: int| 0 <= j < i - 1 implies (#[trigger] ms.skip(1)[j]).session_id
            != sid by {
            assert(ms.skip(1)[j] == ms[j + 1]);
        }
        assert(ms.skip(1)[i - 1] == ms[i]);
        lemma_find_member_at(ms.skip(1), sid, i - 1);
    }
}

/// When no member has the id, `find_member` returns -1.
pub proof fn lemma_find_member_none(ms: Seq<Channel>, sid: u64)
    requires
        forall|j: int| 0 <= j < ms.len() ==> (#[trigger] ms[j]).session_id != sid,
    ensures
        find_member(ms, sid) == -1,
    decreases ms.len(),
{
    if ms.len() > 0 {
        assert forall|j: int| 0 <= j < ms.skip(1).len() implies (#[trigger] ms.skip(
            1,
        )[j]).session_id != sid by {
            assert(ms.skip(1)[j] == ms[j + 1]);
        }
        lemma_find_member_none(ms.skip(1), sid);
    }
}

/// A terminate control for every member, in order.
pub open spec fn terminate_deliveries(ms: Seq<Channel>) -> Seq<(u64, MessageType, Seq<u8>)>
    decreases ms.len(),
{
    if ms.len() == 0 {
        Seq::empty()
    } else {
        terminate_deliveries(ms.drop_last()).push(
            (ms.last().session_id, MessageType::Terminate, terminate_body()),
        )
    }
}

/// Build the terminate fan-out for a member list.
fn terminate_all(ms: &Vec<Channel>) -> (r: Vec<Delivery>)
    ensures
        dview(r@) == terminate_deliveries(ms@),
{
    let mut r: Vec<Delivery> = Vec::new();
    let mut i: usize = 0;
    proof {
        assert(dview(r@) =~= terminate_deliveries(ms@.take(0)));
    }
    while i < ms.len()
        invariant
            i <= ms@.len(),
            dview(r@) == terminate_deliveries(ms@.take(i as int)),
        decreases ms@.len() - i,
    {
        proof {
            assert(ms@.take(i + 1).drop_last() =~= ms@.take(i as int));
            assert(ms@.take(i + 1).last() == ms@[i as int]);
        }
        let mut body: Vec<u8> = Vec::new();
        body.push(4);
        proof {
            assert(body@ =~= terminate_body());
        }
        r.push(Delivery { id: ms[i].session_id, kind: MessageType::Terminate, body });
        proof {
            assert(dview(r@) =~= terminate_deliveries(ms@.take(i + 1)));
        }
        i = i + 1;
    }
    proof {
        assert(ms@.take(ms@.len() as int) =~= ms@);
    }
    r
}

/// The session ids of a member list, in order.
pub open spec fn member_ids(ms: Seq<Channel>) -> Seq<u64> {
    ms.map_values(|c: Channel| c.session_id)
}

/// Every session id in the registry, channel by channel.
pub open spec fn all_ids(chs: Seq<ChannelEntry>) -> Seq<u64>
    decreases chs.len(),
{
    if chs.len() == 0 {
        Seq::empty()
    } else {
        all_ids(chs.drop_last()) + member_ids(chs.last().members@)
    }
}

/// The id of any member occurs in `all_ids`.
pub proof fn lemma_all_ids_covers(chs: Seq<ChannelEntry>, i: int, k: int)
    requires
        0 <= i < chs.len(),
        0 <= k < chs[i].members@.len(),
    ensures
        all_ids(chs).contains(chs[i].members@[k].session_id),
    decreases chs.len(),
{
    let sid = chs[i].members@[k].session_id;
    let dl = chs.drop_last();
    if i == chs.len() - 1 {
        assert(member_ids(chs.last().members@)[k] == sid);
        assert(all_ids(chs)[all_ids(dl).len() + k] == sid);
    } else {
        lemma_all_ids_covers(dl, i, k);
        assert(dl[i] == chs[i]);
        let j = choose|j: int| 0 <= j < all_ids(dl).len() && all_ids(dl)[j] == sid;
        assert(all_ids(chs)[j] == sid);
    }
}

/// Among any `n` ids there is an unused value between 1 and `n + 1`.
proof fn lemma_exists_unused(ids: Seq<u64>)
    requires
        ids.len() + 1 < u64::MAX,
    ensures
        exists|c: u64| 1 <= c <= ids.len() + 1 && !ids.contains(c),
{
    broadcast use vstd::seq_lib::group_seq_properties;

    if !(exists|c: u64| 1 <= c <= ids.len() + 1 && !ids.contains(c)) {
        let iids = ids.map_values(|v: u64| v as int);
        let range = vstd::set_lib::set_int_range(1, ids.len() as int + 2);
        assert forall|x: int| range.contains(x) implies iids.to_set().contains(x) by {
            let c = x as u64;
            assert(1 <= c <= ids.len() + 1);
            assert(ids.contains(c));
            let j = choose|j: int| 0 <= j < ids.len() && ids[j] == c;
            assert(iids[j] == x);
            assert(iids.contains(x));
        }
        vstd::set_lib::lemma_int_range(1, ids.len() as int + 2);
        iids.lemma_cardinality_of_set();
        vstd::set_lib::lemma_len_subset(range, iids.to_set());
        assert(false);
    }
}

/// Does a session id occur in the list?
fn contains_id(ids: &Vec<u64>, x: u64) -> (r: bool)
    ensures
        r == ids@.contains(x),
{
    let mut i: usize = 0;
    while i < ids.len()
        invariant
            i <= ids@.len(),
            forall|j: int| 0 <= j < i ==> ids@[j] != x,
        decreases ids@.len() - i,
    {
        if ids[i] == x {
            return true;
        }
        i = i + 1;
    }
    proof {
        if ids@.contains(x) {
            let j = choose|j: int| 0 <= j < ids@.len() && ids@[j] == x;
            assert(ids@[j] != x);
        }
    }
    false
}

impl ChannelServer {
    /// Every session id in the registry.
    fn collect_ids(&self) -> (r: Vec<u64>)
        ensures
            r@ == all_ids(self.channels@),
    {
        let mut r: Vec<u64> = Vec::new();
        let mut i: usize = 0;
        proof {
            assert(r@ =~= all_ids(self.channels@.take(0)));
        }
        while i < self.channels.len()
            invariant
                i <= self.channels@.len(),
                r@ == all_ids(self.channels@.take(i as int)),
            decreases self.channels@.len() - i,
        {
            proof {
                assert(self.channels@.take(i + 1).drop_last() =~= self.channels@.take(i as int));
                assert(self.channels@.take(i + 1).last() == self.channels@[i as int]);
            }
            let ghost base = r@;
            let ms = &self.channels[i].members;
            let mut k: usize = 0;
            proof {
                assert(r@ =~= base + member_ids(ms@.take(0)));
            }
            while k < ms.len()
                invariant
                    k <= ms@.len(),
                    r@ == base + member_ids(ms@.take(k as int)),
                decreases ms@.len() - k,
            {
                r.push(ms[k].session_id);
                proof {
                    assert(r@ =~= base + member_ids(ms@.take(k + 1)));
                }
                k = k + 1;
            }
            proof {
                assert(ms@.take(ms@.len() as int) =~= ms@);
                assert(r@ =~= all_ids(self.channels@.take(i + 1)));
            }
            i = i + 1;
        }
        proof {
            assert(self.channels@.take(self.channels@.len() as int) =~= self.channels@);
        }
        r
    }

    /// A session id that is non-zero and not in use: the random draw
    /// when it serves, else the smallest unused value.
    fn fresh_session_id(&self) -> (r: u64)
        requires
            all_ids(self.channels@).len() + 1 < u64::MAX,
        ensures
            r != 0,
            !id_in_use(self.channels@, r),
    {
        let ids = self.collect_ids();
        let cand = random_u64();
        if cand != 0 && !contains_id(&ids, cand) {
            return cand;
        }
        proof {
            lemma_exists_unused(ids@);
        }
        let n = ids.len();
        let mut c: u64 = 1;
        while c <= (n as u64) + 1
            invariant
                n == ids@.len(),
                n + 1 < u64::MAX,
                ids@ == all_ids(self.channels@),
                1 <= c <= n + 2,
                exists|u: u64| c <= u <= n + 1 && !ids@.contains(u),
            decreases n + 2 - c,
        {
            if !contains_id(&ids, c) {
                return c;
            }
            proof {
                let u = choose|u: u64| c <= u <= n + 1 && !ids@.contains(u);
                assert(c + 1 <= u <= n + 1 && !ids@.contains(u));
            }
            c = c + 1;
        }
        proof {
            assert(false);
        }
        1
    }
}

/// Relies on rand::random over u64: the value comes from the
/// thread-local generator; nothing can be promised of it.
#[verifier::external_body]
fn random_u64() -> u64 {
    rand::random::<u64>()
}

/// May a dropped principal be rejoining? True when some member's remote
/// address equals the joiner's.
pub open spec fn reconnect_possible(ms: Seq<Channel>, new_remote: Option<String>) -> bool {
    match new_remote {
        None => false,
        Some(nr) => exists|k: int|
            0 <= k < ms.len() && (#[trigger] ms[k]).remote is Some && ms[k].remote->0@ == nr@,
    }
}

/// Is a previously connected client trying to reconnect?
pub fn reconnect_check(group: &Vec<Channel>, new_remote: &Option<String>) -> (r: bool)
    ensures
        r == reconnect_possible(group@, *new_remote),
{
    let nr = match new_remote {
        None => {
            return false;
        },
        Some(nr) => nr,
    };
    let mut k: usize = 0;
    while k < group.len()
        invariant
            k <= group@.len(),
            *new_remote == Some(*nr),
            forall|j: int|
                0 <= j < k ==> !((#[trigger] group@[j]).remote is Some && group@[j].remote->0@
                    == nr@),
        decreases group@.len() - k,
    {
        match &group[k].remote {
            Some(loc) => {
                if loc.eq(nr) {
                    return true;
                }
            },
            None => {},
        }
        k = k + 1;
    }
    false
}

/// The first frame an accepted session receives: its channel link.
pub open spec fn connect_frame_bytes(id: ChannelID) -> Seq<u8> {
    "{\"link\":\"/v1/ws/".spec_bytes() + encoded_ascii(id.bytes())
        + "\",\"channelid\":\"".spec_bytes() + encoded_ascii(id.bytes()) + "\"}".spec_bytes()
}

/// Build the channel-link frame.
pub fn connect_frame(channel: &ChannelID) -> (r: Vec<u8>)
    ensures
        r@ == connect_frame_bytes(*channel),
{
    let mut out: Vec<u8> = Vec::new();
    append_literal(&mut out, "{\"link\":\"/v1/ws/");
    let mut enc = channel.encoded_bytes();
    out.append(&mut enc);
    append_literal(&mut out, "\",\"channelid\":\"");
    let mut enc = channel.encoded_bytes();
    out.append(&mut enc);
    append_literal(&mut out, "\"}");
    proof {
        assert(out@ =~= connect_frame_bytes(*channel));
    }
    out
}

/// The record a newly accepted member starts with.
pub open spec fn new_member(sid: u64, now: u64, remote: Option<String>) -> Channel {
    Channel { session_id: sid, started: now, msg_count: 0, data_exchanged: 0, remote }
}

impl ChannelServer {
    /// Register a session, or reject it. The reply is the new session
    /// id, with 0 standing for rejection; an accepted session is handed
    /// the channel-link frame as its first delivery.
    ///
    /// A join to an absent channel is rejected unless the request may
    /// create it; a full channel rejects and counts `conn.max.conn`; a
    /// channel already holding more than two members admits only a
    /// remote address that matches a member's.
    pub fn handle_connect(&mut self, msg: Connect, now: u64) -> (r: (u64, Vec<Delivery>))
        requires
            old(self).wf(),
        ensures
            final(self).wf(),
            final(self).settings == old(self).settings,
            ({
                let chs = old(self).channels@;
                let achs = final(self).channels@;
                let ametrics = final(self).metrics;
                let ci = find_chan(chs, msg.channel.bytes());
                let maxc = old(self).settings.max_channel_connections as int;
                let reject_unknown = ci < 0 && !msg.initial_connect;
                let reject_full = (ci >= 0 && chs[ci].members@.len() >= maxc) || (ci < 0
                    && msg.initial_connect && maxc == 0);
                let reject_third = ci >= 0 && chs[ci].members@.len() < maxc
                    && chs[ci].members@.len() > 2 && !reconnect_possible(
                    chs[ci].members@,
                    msg.remote,
                );
                let exhausted = all_ids(chs).len() + 1 >= u64::MAX;
                &&& (r.0 == 0 <==> reject_unknown || reject_full || reject_third || exhausted)
                &&& ((reject_unknown || reject_third || (exhausted && !reject_full)) ==> (achs
                    == chs && ametrics == old(self).metrics && r.1@.len() == 0))
                &&& (reject_full ==> (achs == chs && ametrics == (MetricCounters {
                    max_conn: bump(old(self).metrics.max_conn),
                    ..old(self).metrics
                }) && r.1@.len() == 0))
                &&& r.0 != 0 ==> {
                    &&& !id_in_use(chs, r.0)
                    &&& ametrics == (MetricCounters {
                        conn_create: bump(old(self).metrics.conn_create),
                        ..old(self).metrics
                    })
                    &&& dview(r.1@) == seq![
                        (r.0, MessageType::Text, connect_frame_bytes(msg.channel)),
                    ]
                    &&& if ci >= 0 {
                        members_updated(
                            chs,
                            achs,
                            ci,
                            chs[ci].members@.push(new_member(r.0, now, msg.remote)),
                        )
                    } else {
                        &&& achs.len() == chs.len() + 1
                        &&& forall|j: int| 0 <= j < chs.len() ==> achs[j] == #[trigger] chs[j]
                        &&& achs.last().id == msg.channel
                        &&& achs.last().members@ == seq![new_member(r.0, now, msg.remote)]
                    }
                }
            }),
    {
        let maxc = self.settings.max_channel_connections;
        match self.find_channel(&msg.channel) {
            None => {
                if !msg.initial_connect {
                    return (0, Vec::new());
                }
                if maxc == 0 {
                    self.metrics.max_conn = crate::metrics::bump_exec(self.metrics.max_conn);
                    return (0, Vec::new());
                }
                let ids = self.collect_ids();
                if ids.len() as u64 >= u64::MAX - 1 {
                    return (0, Vec::new());
                }
                let sid = self.fresh_session_id();
                let member = Channel {
                    session_id: sid,
                    started: now,
                    msg_count: 0,
                    data_exchanged: 0,
                    remote: msg.remote,
                };
                let mut members: Vec<Channel> = Vec::new();
                members.push(member);
                let entry = ChannelEntry { id: msg.channel, members };
                self.channels.push(entry);
                self.metrics.conn_create = crate::metrics::bump_exec(self.metrics.conn_create);
                proof {
                    lemma_push_channel_keeps_wf(*old(self), *self, sid);
                }
                let frame = connect_frame(&msg.channel);
                let mut ds: Vec<Delivery> = Vec::new();
                ds.push(Delivery { id: sid, kind: MessageType::Text, body: frame });
                proof {
                    assert(dview(ds@) =~= seq![
                        (sid, MessageType::Text, connect_frame_bytes(msg.channel)),
                    ]);
                }
                (sid, ds)
            },
            Some(ci) => {
                let group_len = self.channels[ci].members.len();
                if group_len >= maxc as usize {
                    self.metrics.max_conn = crate::metrics::bump_exec(self.metrics.max_conn);
                    return (0, Vec::new());
                }
                if group_len > 2 && !reconnect_check(&self.channels[ci].members, &msg.remote) {
                    return (0, Vec::new());
                }
                let ids = self.collect_ids();
                if ids.len() as u64 >= u64::MAX - 1 {
                    return (0, Vec::new());
                }
                let sid = self.fresh_session_id();
                let member = Channel {
                    session_id: sid,
                    started: now,
                    msg_count: 0,
                    data_exchanged: 0,
                    remote: msg.remote,
                };
                let mut entry = self.channels.remove(ci);
                entry.members.push(member);
                self.channels.insert(ci, entry);
                self.metrics.conn_create = crate::metrics::bump_exec(self.metrics.conn_create);
                proof {
                    assert forall|j: int|
                        0 <= j < old(self).channels@.len() && j != ci implies self.channels@[j]
                        == #[trigger] old(self).channels@[j] by {
                        if j < ci {
                            assert(self.channels@[j] == old(self).channels@.remove(ci as int)[j]);
                        } else {
                            assert(self.channels@[j] == old(self).channels@.remove(
                                ci as int,
                            )[j - 1]);
                        }
                    }
                    lemma_add_member_keeps_wf(*old(self), *self, ci as int, sid);
                }
                let frame = connect_frame(&msg.channel);
                let mut ds: Vec<Delivery> = Vec::new();
                ds.push(Delivery { id: sid, kind: MessageType::Text, body: frame });
                proof {
                    assert(dview(ds@) =~= seq![
                        (sid, MessageType::Text, connect_frame_bytes(msg.channel)),
                    ]);
                }
                (sid, ds)
            },
        }
    }
}

/// Appending a channel with one fresh member keeps the registry
/// well-formed.
proof fn lemma_push_channel_keeps_wf(before: ChannelServer, after: ChannelServer, sid: u64)
    requires
        before.wf(),
        sid != 0,
        !id_in_use(before.channels@, sid),
        find_chan(before.channels@, after.channels@.last().id.bytes()) == -1,
        after.channels@.len() == before.channels@.len() + 1,
        forall|j: int|
            0 <= j < before.channels@.len() ==> after.channels@[j] == #[trigger] before.channels@[j],
        after.channels@.last().members@.len() == 1,
        after.channels@.last().members@[0].session_id == sid,
    ensures
        after.wf(),
{
    let bc = before.channels@;
    let ac = after.channels@;
    lemma_find_chan(bc, ac.last().id.bytes());
    assert forall|i: int, j: int| 0 <= i < j < ac.len() implies (#[trigger] ac[i]).id.bytes() != (
    #[trigger] ac[j]).id.bytes() by {
        if j < ac.len() - 1 {
            assert(ac[i] == bc[i] && ac[j] == bc[j]);
        } else {
            assert(ac[i] == bc[i]);
            assert(ac[j] == ac.last());
        }
    }
    assert forall|i: int| 0 <= i < ac.len() implies (#[trigger] ac[i]).members@.len() >= 1 by {
        if i < ac.len() - 1 {
            assert(ac[i] == bc[i]);
        } else {
            assert(ac[i] == ac.last());
        }
    }
    assert forall|i: int, k: int|
        0 <= i < ac.len() && 0 <= k < (#[trigger] ac[i]).members@.len() implies (
    #[trigger] ac[i].members@[k]).session_id != 0 by {
        if i < ac.len() - 1 {
            assert(ac[i] == bc[i]);
        } else {
            assert(ac[i] == ac.last());
            assert(k == 0);
        }
    }
    assert forall|i: int, k: int, i2: int, k2: int|
        0 <= i < ac.len() && 0 <= k < (#[trigger] ac[i]).members@.len() && 0 <= i2 < ac.len() && 0
            <= k2 < (#[trigger] ac[i2]).members@.len() && (i != i2 || k != k2) implies (
    #[trigger] ac[i].members@[k]).session_id != (#[trigger] ac[i2].members@[k2]).session_id by {
        if i < ac.len() - 1 && i2 < ac.len() - 1 {
            assert(ac[i] == bc[i] && ac[i2] == bc[i2]);
            assert(bc[i].members@[k].session_id != bc[i2].members@[k2].session_id);
        } else if i < ac.len() - 1 && i2 == ac.len() - 1 {
            assert(ac[i] == bc[i]);
            assert(ac[i2] == ac.last());
            assert(k2 == 0);
            assert(ac[i2].members@[k2].session_id == sid);
            lemma_all_ids_covers(bc, i, k);
            assert(all_ids(bc).contains(bc[i].members@[k].session_id));
        } else if i == ac.len() - 1 && i2 < ac.len() - 1 {
            assert(ac[i2] == bc[i2]);
            assert(ac[i] == ac.last());
            assert(k == 0);
            assert(ac[i].members@[k].session_id == sid);
            lemma_all_ids_covers(bc, i2, k2);
            assert(all_ids(bc).contains(bc[i2].members@[k2].session_id));
        }
    }
}

/// Appending one fresh member to a channel keeps the registry
/// well-formed.
proof fn lemma_add_member_keeps_wf(
    before: ChannelServer,
    after: ChannelServer,
    ci: int,
    sid: u64,
)
    requires
        before.wf(),
        sid != 0,
        !id_in_use(before.channels@, sid),
        0 <= ci < before.channels@.len(),
        after.channels@.len() == before.channels@.len(),
        forall|j: int|
            0 <= j < before.channels@.len() && j != ci ==> after.channels@[j] == #[trigger] before.channels@[j],
        after.channels@[ci].id == before.channels@[ci].id,
        after.channels@[ci].members@ == before.channels@[ci].members@.push(
            after.channels@[ci].members@.last(),
        ),
        after.channels@[ci].members@.last().session_id == sid,
    ensures
        after.wf(),
{
    let bc = before.channels@;
    let ac = after.channels@;
    let bms = bc[ci].members@;
    let ams = ac[ci].members@;
    assert(ams.len() == bms.len() + 1);
    assert forall|k: int| 0 <= k < bms.len() implies ams[k] == #[trigger] bms[k] by {
        assert(ams[k] == bms.push(ams.last())[k]);
    }
    assert forall|i: int| 0 <= i < ac.len() implies (#[trigger] ac[i]).id == bc[i].id && ac[
    i].members@.len() >= 1 by {
        if i != ci {
            assert(ac[i] == bc[i]);
        }
    }
    assert forall|i: int, j: int| 0 <= i < j < ac.len() implies (#[trigger] ac[i]).id.bytes() != (
    #[trigger] ac[j]).id.bytes() by {
        assert(ac[i].id == bc[i].id);
        assert(ac[j].id == bc[j].id);
    }
    assert forall|i: int, k: int|
        0 <= i < ac.len() && 0 <= k < (#[trigger] ac[i]).members@.len() implies (
    #[trigger] ac[i].members@[k]).session_id != 0 by {
        if i != ci {
            assert(ac[i] == bc[i]);
        } else if k < bms.len() {
            assert(ac[i].members@[k] == bms[k]);
        }
    }
    assert forall|i: int, k: int, i2: int, k2: int|
        0 <= i < ac.len() && 0 <= k < (#[trigger] ac[i]).members@.len() && 0 <= i2 < ac.len() && 0
            <= k2 < (#[trigger] ac[i2]).members@.len() && (i != i2 || k != k2) implies (
    #[trigger] ac[i].members@[k]).session_id != (#[trigger] ac[i2].members@[k2]).session_id by {
        let fresh1 = i == ci && k == bms.len();
        let fresh2 = i2 == ci && k2 == bms.len();
        if !fresh1 && !fresh2 {
            if i != ci {
                assert(ac[i].members@[k] == bc[i].members@[k]);
            } else {
                assert(ac[i].members@[k] == bc[i].members@[k]);
            }
            if i2 != ci {
                assert(ac[i2].members@[k2] == bc[i2].members@[k2]);
            } else {
                assert(ac[i2].members@[k2] == bc[i2].members@[k2]);
            }
        } else if fresh1 && !fresh2 {
            if i2 != ci {
                assert(ac[i2].members@[k2] == bc[i2].members@[k2]);
            } else {
                assert(ac[i2].members@[k2] == bc[i2].members@[k2]);
            }
            lemma_all_ids_covers(bc, i2, k2);
        } else if !fresh1 && fresh2 {
            if i != ci {
                assert(ac[i].members@[k] == bc[i].members@[k]);
            } else {
                assert(ac[i].members@[k] == bc[i].members@[k]);
            }
            lemma_all_ids_covers(bc, i, k);
        }
    }
}

/// Removing a whole channel keeps the registry well-formed.
proof fn lemma_remove_keeps_wf(before: ChannelServer, after: ChannelServer, ci: int)
    requires
        before.wf(),
        0 <= ci < before.channels@.len(),
        after.channels@ == before.channels@.remove(ci),
    ensures
        forall|j: int|
            0 <= j < after.channels@.len() ==> #[trigger] after.channels@[j]
                == before.channels@[if j < ci {
                j
            } else {
                j + 1
            }],
        after.wf(),
{
    assert forall|j: int|
        0 <= j < after.channels@.len() implies #[trigger] after.channels@[j]
            == before.channels@[if j < ci {
            j
        } else {
            j + 1
        }] by {
        assert(after.channels@[j] == before.channels@.remove(ci)[j]);
    }
}

/// Replacing one channel's member list with a sublist whose entries all
/// come from the old list keeps the registry well-formed, as long as the
/// list stays non-empty.
proof fn lemma_update_member_removal_keeps_wf(
    before: ChannelServer,
    after: ChannelServer,
    ci: int,
    mi: int,
)
    requires
        before.wf(),
        after.settings == before.settings,
        0 <= ci < before.channels@.len(),
        0 <= mi < before.channels@[ci].members@.len(),
        before.channels@[ci].members@.len() > 1,
        members_updated(
            before.channels@,
            after.channels@,
            ci,
            before.channels@[ci].members@.remove(mi),
        ),
    ensures
        after.wf(),
{
    let bms = before.channels@[ci].members@;
    let ams = bms.remove(mi);
    let bc = before.channels@;
    let ac = after.channels@;
    assert forall|k: int| 0 <= k < ams.len() implies #[trigger] ams[k] == bms[if k < mi {
        k
    } else {
        k + 1
    }] by {
        assert(ams[k] == bms.remove(mi)[k]);
    }
    assert forall|i: int| 0 <= i < ac.len() implies (#[trigger] ac[i]).id == bc[i].id && ac[
    i].members@.len() >= 1 by {
        if i != ci {
            assert(ac[i] == bc[i]);
        } else {
            assert(ac[i].members@ == ams);
        }
    }
    assert forall|i: int, j: int| 0 <= i < j < ac.len() implies (#[trigger] ac[i]).id.bytes() != (
    #[trigger] ac[j]).id.bytes() by {
        assert(ac[i].id == bc[i].id);
        assert(ac[j].id == bc[j].id);
    }
    // Each member position of the new registry stands for a position of
    // the old one, and distinct positions stay distinct.
    let bpos = |i: int, k: int|
        if i == ci && k >= mi {
            k + 1
        } else {
            k
        };
    assert forall|i: int, k: int|
        0 <= i < ac.len() && 0 <= k < ac[i].members@.len() implies #[trigger] ac[i].members@[k]
            == bc[i].members@[bpos(i, k)] && 0 <= bpos(i, k) < bc[i].members@.len() by {
        if i == ci {
            assert(ac[i].members@ == ams);
        } else {
            assert(ac[i] == bc[i]);
        }
    }
    assert forall|i: int, k: int, i2: int, k2: int|
        0 <= i < ac.len() && 0 <= k < (#[trigger] ac[i]).members@.len() && 0 <= i2 < ac.len() && 0
            <= k2 < (#[trigger] ac[i2]).members@.len() && (i != i2 || k != k2) implies (
    #[trigger] ac[i].members@[k]).session_id != (#[trigger] ac[i2].members@[k2]).session_id by {
        assert(ac[i].members@[k] == bc[i].members@[bpos(i, k)]);
        assert(ac[i2].members@[k2] == bc[i2].members@[bpos(i2, k2)]);
        assert(i != i2 || bpos(i, k) != bpos(i2, k2));
    }
    assert forall|i: int, k: int|
        0 <= i < ac.len() && 0 <= k < (#[trigger] ac[i]).members@.len() implies (
    #[trigger] ac[i].members@[k]).session_id != 0 by {
        assert(ac[i].members@[k] == bc[i].members@[bpos(i, k)]);
    }
}

/// Law: a channel with zero members is not retained — every channel a
/// well-formed broker holds has at least one member. Each broker
/// operation returns a well-formed broker, so this holds between any
/// two operations.
pub proof fn law_no_empty_channels(s: ChannelServer)
    requires
        s.wf(),
    ensures
        forall|i: int| 0 <= i < s.channels@.len() ==> (#[trigger] s.channels@[i]).members@.len()
            >= 1,
{
}

/// Law: while a session is live its id is non-zero and no other live
/// session holds it, in any channel. Each broker operation returns a
/// well-formed broker, so this holds between any two operations.
pub proof fn law_session_ids_unique(s: ChannelServer)
    requires
        s.wf(),
    ensures
        forall|i: int, k: int|
            0 <= i < s.channels@.len() && 0 <= k < (#[trigger] s.channels@[i]).members@.len() ==> (
            #[trigger] s.channels@[i].members@[k]).session_id != 0,
        forall|i: int, k: int, i2: int, k2: int|
            0 <= i < s.channels@.len() && 0 <= k < (#[trigger] s.channels@[i]).members@.len() && 0
                <= i2 < s.channels@.len() && 0 <= k2 < (#[trigger] s.channels@[i2]).members@.len()
                && (i != i2 || k != k2) ==> (#[trigger] s.channels@[i].members@[k]).session_id != (
            #[trigger] s.channels@[i2].members@[k2]).session_id,
{
}

/// Addition stopping at the top rather than wrapping.
pub open spec fn sat_add(a: u64, b: int) -> u64 {
    if a + b > u64::MAX {
        u64::MAX
    } else {
        (a + b) as u64
    }
}

/// A member after one more relayed message of `len` bytes.
pub open spec fn charge(c: Channel, len: int) -> Channel {
    Channel {
        msg_count: bump(c.msg_count),
        data_exchanged: sat_add(c.data_exchanged, len),
        ..c
    }
}

/// Does a charged member stand over a quota? The byte quota is checked
/// first, then the message count; a quota of zero is disabled.
pub open spec fn violates(c: Channel, len: int, max_data: int, max_msg: int) -> bool {
    is_data_violation(c, len, max_data) || (max_msg > 0 && c.msg_count > max_msg)
}

/// Is it the byte quota that the charged member stands over?
pub open spec fn is_data_violation(c: Channel, len: int, max_data: int) -> bool {
    max_data > 0 && (c.data_exchanged > max_data || len > max_data)
}

/// The first recipient (the sender is skipped) whose charge would stand
/// over a quota, or -1.
pub open spec fn first_violation(
    ms: Seq<Channel>,
    skip: u64,
    len: int,
    max_data: int,
    max_msg: int,
) -> int
    decreases ms.len(),
{
    if ms.len() == 0 {
        -1
    } else if ms[0].session_id != skip && violates(charge(ms[0], len), len, max_data, max_msg) {
        0
    } else {
        let r = first_violation(ms.skip(1), skip, len, max_data, max_msg);
        if r < 0 {
            -1
        } else {
            r + 1
        }
    }
}

/// When `i` is the first violating recipient, `first_violation` is `i`.
proof fn lemma_first_violation_at(
    ms: Seq<Channel>,
    skip: u64,
    len: int,
    max_data: int,
    max_msg: int,
    i: int,
)
    requires
        0 <= i < ms.len(),
        ms[i].session_id != skip && violates(charge(ms[i], len), len, max_data, max_msg),
        forall|j: int|
            0 <= j < i ==> !((#[trigger] ms[j]).session_id != skip && violates(
                charge(ms[j], len),
                len,
                max_data,
                max_msg,
            )),
    ensures
        first_violation(ms, skip, len, max_data, max_msg) == i,
    decreases ms.len(),
{
    if i > 0 {
        assert forall|j: int|
            0 <= j < i - 1 implies !((#[trigger] ms.skip(1)[j]).session_id != skip && violates(
                charge(ms.skip(1)[j], len),
                len,
                max_data,
                max_msg,
            )) by {
            assert(ms.skip(1)[j] == ms[j + 1]);
        }
        assert(ms.skip(1)[i - 1] == ms[i]);
        lemma_first_violation_at(ms.skip(1), skip, len, max_data, max_msg, i - 1);
    }
}

/// When no recipient's charge stands over a quota, there is no
/// violation.
proof fn lemma_first_violation_none(
    ms: Seq<Channel>,
    skip: u64,
    len: int,
    max_data: int,
    max_msg: int,
)
    requires
        forall|j: int|
            0 <= j < ms.len() ==> !((#[trigger] ms[j]).session_id != skip && violates(
                charge(ms[j], len),
                len,
                max_data,
                max_msg,
            )),
    ensures
        first_violation(ms, skip, len, max_data, max_msg) == -1,
    decreases ms.len(),
{
    if ms.len() > 0 {
        assert forall|j: int|
            0 <= j < ms.skip(1).len() implies !((#[trigger] ms.skip(1)[j]).session_id != skip
                && violates(charge(ms.skip(1)[j], len), len, max_data, max_msg)) by {
            assert(ms.skip(1)[j] == ms[j + 1]);
        }
        lemma_first_violation_none(ms.skip(1), skip, len, max_data, max_msg);
    }
}

/// All recipients charged for one message; the sender is unchanged.
pub open spec fn charged_members(ms: Seq<Channel>, skip: u64, len: int) -> Seq<Channel> {
    ms.map_values(
        |c: Channel|
            if c.session_id != skip {
                charge(c, len)
            } else {
                c
            },
    )
}

/// The relayed frame for every member but the sender, in order.
pub open spec fn text_deliveries(ms: Seq<Channel>, skip: u64, body: Seq<u8>) -> Seq<
    (u64, MessageType, Seq<u8>),
>
    decreases ms.len(),
{
    if ms.len() == 0 {
        Seq::empty()
    } else {
        text_deliveries(ms.drop_last(), skip, body) + if ms.last().session_id != skip {
            seq![(ms.last().session_id, MessageType::Text, body)]
        } else {
            Seq::empty()
        }
    }
}

/// Law: a relayed message reaches each recipient at most once — when the
/// members hold distinct session ids (as a well-formed broker's channels
/// do), no two frames of one fan-out name the same recipient.
pub proof fn law_at_most_once_delivery(ms: Seq<Channel>, skip: u64, body: Seq<u8>)
    requires
        forall|a: int, b: int|
            0 <= a < b < ms.len() ==> (#[trigger] ms[a]).session_id != (
            #[trigger] ms[b]).session_id,
    ensures
        forall|a: int, b: int|
            0 <= a < b < text_deliveries(ms, skip, body).len() ==> (#[trigger] text_deliveries(
                ms,
                skip,
                body,
            )[a]).0 != (#[trigger] text_deliveries(ms, skip, body)[b]).0,
    decreases ms.len(),
{
    if ms.len() > 0 {
        let dl = ms.drop_last();
        law_at_most_once_delivery(dl, skip, body);
        let prev = text_deliveries(dl, skip, body);
        lemma_text_deliveries_recipients(dl, skip, body);
        assert forall|a: int, b: int|
            0 <= a < b < text_deliveries(ms, skip, body).len() implies (
        #[trigger] text_deliveries(ms, skip, body)[a]).0 != (#[trigger] text_deliveries(
            ms,
            skip,
            body,
        )[b]).0 by {
            if b >= prev.len() {
                // The last frame's recipient is the last member, whose id
                // no earlier member shares.
                assert(text_deliveries(ms, skip, body)[b].0 == ms.last().session_id);
                assert(text_deliveries(ms, skip, body)[a] == prev[a]);
            } else {
                assert(text_deliveries(ms, skip, body)[a] == prev[a]);
                assert(text_deliveries(ms, skip, body)[b] == prev[b]);
            }
        }
    }
}

/// Every frame of a fan-out names some member other than the sender.
proof fn lemma_text_deliveries_recipients(ms: Seq<Channel>, skip: u64, body: Seq<u8>)
    ensures
        forall|a: int|
            0 <= a < text_deliveries(ms, skip, body).len() ==> exists|m: int|
                0 <= m < ms.len() && (#[trigger] text_deliveries(ms, skip, body)[a]).0 == (
                #[trigger] ms[m]).session_id,
    decreases ms.len(),
{
    if ms.len() > 0 {
        let dl = ms.drop_last();
        lemma_text_deliveries_recipients(dl, skip, body);
        let prev = text_deliveries(dl, skip, body);
        assert forall|a: int|
            0 <= a < text_deliveries(ms, skip, body).len() implies exists|m: int|
                0 <= m < ms.len() && (#[trigger] text_deliveries(ms, skip, body)[a]).0 == (
                #[trigger] ms[m]).session_id by {
            if a < prev.len() {
                assert(text_deliveries(ms, skip, body)[a] == prev[a]);
                let m = choose|m: int|
                    0 <= m < dl.len() && (prev[a]).0 == (#[trigger] dl[m]).session_id;
                assert(ms[m] == dl[m]);
                assert(text_deliveries(ms, skip, body)[a].0 == ms[m].session_id);
            } else {
                assert(text_deliveries(ms, skip, body)[a].0 == ms[ms.len() - 1].session_id);
            }
        }
    }
}

/// The relayed form of a message: the body and the sender's metadata,
/// framed as one JSON object.
pub open spec fn wrapped_message(msg: Seq<u8>, sender: SenderData) -> Seq<u8> {
    "{\"message\":".spec_bytes() + json_string(msg) + ",\"sender\":".spec_bytes()
        + sender.json_bytes() + "}".spec_bytes()
}

/// Frame a message body with its sender's metadata.
pub fn wrap_message(msg: &String, sender: &SenderData) -> (r: Vec<u8>)
    ensures
        r@ == wrapped_message(encode_utf8(msg@), *sender),
{
    let mut out: Vec<u8> = Vec::new();
    append_literal(&mut out, "{\"message\":");
    let mb = msg.as_str().as_bytes_vec();
    append_json_string(&mut out, &mb);
    append_literal(&mut out, ",\"sender\":");
    let mut sj = sender.to_json();
    out.append(&mut sj);
    append_literal(&mut out, "}");
    proof {
        assert(out@ =~= wrapped_message(encode_utf8(msg@), *sender));
    }
    out
}

/// Copy one member record.
fn duplicate_member(c: &Channel) -> (r: Channel)
    ensures
        r == *c,
{
    Channel {
        session_id: c.session_id,
        started: c.started,
        msg_count: c.msg_count,
        data_exchanged: c.data_exchanged,
        remote: match &c.remote {
            Some(s) => Some(s.clone()),
            None => None,
        },
    }
}

/// Charge one member for a message of `len` bytes.
fn charge_member(c: &Channel, len: u64) -> (r: Channel)
    ensures
        r == charge(*c, len as int),
{
    let data = if len > u64::MAX - c.data_exchanged {
        u64::MAX
    } else {
        c.data_exchanged + len
    };
    Channel {
        session_id: c.session_id,
        started: c.started,
        msg_count: crate::metrics::bump_exec(c.msg_count),
        data_exchanged: data,
        remote: match &c.remote {
            Some(s) => Some(s.clone()),
            None => None,
        },
    }
}

impl ChannelServer {
    /// Route one client frame. A terminate control drops the sender from
    /// the channel, as a disconnect would. A text frame is wrapped with
    /// the sender's metadata and relayed to every other member; each
    /// recipient is first charged for it, and the first recipient whose
    /// quota the charge passes aborts the relay and shuts the whole
    /// channel down, counting `conn.max.data` or `conn.max.msg`.
    pub fn handle_client_message(&mut self, msg: ClientMessage) -> (r: Vec<Delivery>)
        requires
            old(self).wf(),
        ensures
            final(self).wf(),
            final(self).settings == old(self).settings,
            msg.message_type is Terminate ==> final(self).metrics == old(self).metrics
                && disconnect_outcome(
                old(self).channels@,
                final(self).channels@,
                msg.channel.bytes(),
                msg.id,
                dview(r@),
            ),
            msg.message_type is Text ==> ({
                let chs = old(self).channels@;
                let ci = find_chan(chs, msg.channel.bytes());
                let body = wrapped_message(encode_utf8(msg.msg@), msg.sender);
                let md = old(self).settings.max_data as int;
                let mm = old(self).settings.max_exchanges as int;
                if ci < 0 {
                    final(self).channels@ == chs && final(self).metrics == old(self).metrics
                        && r@.len() == 0
                } else {
                    let ms = chs[ci].members@;
                    let v = first_violation(ms, msg.id, body.len() as int, md, mm);
                    if v < 0 {
                        &&& members_updated(
                            chs,
                            final(self).channels@,
                            ci,
                            charged_members(ms, msg.id, body.len() as int),
                        )
                        &&& dview(r@) == text_deliveries(ms, msg.id, body)
                        &&& final(self).metrics == old(self).metrics
                    } else {
                        &&& final(self).channels@ == chs.remove(ci)
                        &&& dview(r@) == terminate_deliveries(ms)
                        &&& final(self).metrics == (if is_data_violation(
                            charge(ms[v], body.len() as int),
                            body.len() as int,
                            md,
                        ) {
                            MetricCounters {
                                max_data: bump(old(self).metrics.max_data),
                                ..old(self).metrics
                            }
                        } else {
                            MetricCounters {
                                max_msg: bump(old(self).metrics.max_msg),
                                ..old(self).metrics
                            }
                        })
                    }
                }
            }),
    {
        match msg.message_type {
            MessageType::Terminate => {
                return self.disconnect(&msg.channel, msg.id);
            },
            MessageType::Text => {},
        }
        let body = wrap_message(&msg.msg, &msg.sender);
        let len: u64 = body.len() as u64;
        let md = self.settings.max_data;
        let mm = self.settings.max_exchanges as u64;
        let ci = match self.find_channel(&msg.channel) {
            None => {
                return Vec::new();
            },
            Some(i) => i,
        };
        let entry = self.channels.remove(ci);
        let ghost ms = entry.members@;
        let mut new_members: Vec<Channel> = Vec::new();
        let mut ds: Vec<Delivery> = Vec::new();
        let mut i: usize = 0;
        proof {
            assert(new_members@ =~= charged_members(ms.take(0), msg.id, len as int));
            assert(dview(ds@) =~= text_deliveries(ms.take(0), msg.id, body@));
        }
        while i < entry.members.len()
            invariant
                i <= entry.members@.len(),
                ms == entry.members@,
                len == body@.len(),
                old(self).wf(),
                msg.message_type is Text,
                body@ == wrapped_message(encode_utf8(msg.msg@), msg.sender),
                ci < old(self).channels@.len(),
                find_chan(old(self).channels@, msg.channel.bytes()) == ci as int,
                ms == old(self).channels@[ci as int].members@,
                entry.id == old(self).channels@[ci as int].id,
                self.channels@ == old(self).channels@.remove(ci as int),
                self.settings == old(self).settings,
                self.metrics == old(self).metrics,
                md == self.settings.max_data,
                mm == self.settings.max_exchanges as u64,
                forall|j: int|
                    0 <= j < i ==> !((#[trigger] ms[j]).session_id != msg.id && violates(
                        charge(ms[j], len as int),
                        len as int,
                        md as int,
                        mm as int,
                    )),
                new_members@ == charged_members(ms.take(i as int), msg.id, len as int),
                dview(ds@) == text_deliveries(ms.take(i as int), msg.id, body@),
            decreases entry.members@.len() - i,
        {
            proof {
                assert(ms.take(i + 1).drop_last() =~= ms.take(i as int));
                assert(ms.take(i + 1).last() == ms[i as int]);
            }
            let c = &entry.members[i];
            if c.session_id != msg.id {
                let charged = charge_member(c, len);
                let data_violation = md > 0 && (charged.data_exchanged > md || len > md);
                let msg_violation = mm > 0 && charged.msg_count > mm;
                if data_violation || msg_violation {
                    proof {
                        lemma_first_violation_at(
                            ms,
                            msg.id,
                            len as int,
                            md as int,
                            mm as int,
                            i as int,
                        );
                    }
                    if data_violation {
                        self.metrics.max_data = crate::metrics::bump_exec(self.metrics.max_data);
                    } else {
                        self.metrics.max_msg = crate::metrics::bump_exec(self.metrics.max_msg);
                    }
                    proof {
                        lemma_remove_keeps_wf(*old(self), *self, ci as int);
                    }
                    return terminate_all(&entry.members);
                }
                new_members.push(charged);
                let body2 = body.clone();
                ds.push(Delivery { id: c.session_id, kind: MessageType::Text, body: body2 });
                proof {
                    assert(new_members@ =~= charged_members(ms.take(i + 1), msg.id, len as int));
                    assert(dview(ds@) =~= text_deliveries(ms.take(i + 1), msg.id, body@));
                }
            } else {
                let copy = duplicate_member(c);
                new_members.push(copy);
                proof {
                    assert(new_members@ =~= charged_members(ms.take(i + 1), msg.id, len as int));
                    assert(dview(ds@) =~= text_deliveries(ms.take(i + 1), msg.id, body@));
                }
            }
            i = i + 1;
        }
        proof {
            assert(ms.take(ms.len() as int) =~= ms);
            lemma_first_violation_none(ms, msg.id, len as int, md as int, mm as int);
        }
        let new_entry = ChannelEntry { id: entry.id, members: new_members };
        self.channels.insert(ci, new_entry);
        proof {
            assert forall|j: int|
                0 <= j < old(self).channels@.len() && j != ci implies self.channels@[j]
                == #[trigger] old(self).channels@[j] by {
                if j < ci {
                    assert(self.channels@[j] == old(self).channels@.remove(ci as int)[j]);
                } else {
                    assert(self.channels@[j] == old(self).channels@.remove(ci as int)[j - 1]);
                }
            }
            assert(members_updated(
                old(self).channels@,
                self.channels@,
                ci as int,
                charged_members(ms, msg.id, len as int),
            ));
            lemma_recharge_keeps_wf(*old(self), *self, ci as int);
        }
        ds
    }
}

/// Recharging a channel's members keeps the registry well-formed: the
/// session ids and the member count do not change.
proof fn lemma_recharge_keeps_wf(before: ChannelServer, after: ChannelServer, ci: int)
    requires
        before.wf(),
        0 <= ci < before.channels@.len(),
        after.channels@.len() == before.channels@.len(),
        forall|j: int|
            0 <= j < before.channels@.len() && j != ci ==> after.channels@[j] == #[trigger] before.channels@[j],
        after.channels@[ci].id == before.channels@[ci].id,
        after.channels@[ci].members@.len() == before.channels@[ci].members@.len(),
        forall|k: int|
            0 <= k < before.channels@[ci].members@.len() ==> (
            #[trigger] after.channels@[ci].members@[k]).session_id
                == before.channels@[ci].members@[k].session_id,
    ensures
        after.wf(),
{
    let bc = before.channels@;
    let ac = after.channels@;
    assert forall|i: int| 0 <= i < ac.len() implies (#[trigger] ac[i]).id == bc[i].id && ac[
    i].members@.len() == bc[i].members@.len() by {
        if i != ci {
            assert(ac[i] == bc[i]);
        }
    }
    assert forall|i: int, j: int| 0 <= i < j < ac.len() implies (#[trigger] ac[i]).id.bytes() != (
    #[trigger] ac[j]).id.bytes() by {
        assert(ac[i].id == bc[i].id);
        assert(ac[j].id == bc[j].id);
    }
    assert forall|i: int, k: int|
        0 <= i < ac.len() && 0 <= k < ac[i].members@.len() implies (
    #[trigger] ac[i].members@[k]).session_id == bc[i].members@[k].session_id by {
        if i != ci {
            assert(ac[i] == bc[i]);
        }
    }
    assert forall|i: int, k: int, i2: int, k2: int|
        0 <= i < ac.len() && 0 <= k < (#[trigger] ac[i]).members@.len() && 0 <= i2 < ac.len() && 0
            <= k2 < (#[trigger] ac[i2]).members@.len() && (i != i2 || k != k2) implies (
    #[trigger] ac[i].members@[k]).session_id != (#[trigger] ac[i2].members@[k2]).session_id by {
        assert(ac[i].members@[k].session_id == bc[i].members@[k].session_id);
        assert(ac[i2].members@[k2].session_id == bc[i2].members@[k2].session_id);
        assert(bc[i].members@[k].session_id != bc[i2].members@[k2].session_id);
    }
}

} // verus!

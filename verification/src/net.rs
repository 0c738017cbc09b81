//! Network interface byte counters from an `RTM_GETLINK` dump over
//! rtnetlink (what `ip -s link show` reads).

use crate::netlink::{
    attributes, build_message, lemma_message_roundtrip, message_bytes, messages, msg_views, nla_views, parse_attributes,
    parse_messages, NlMsg, NlMsgView, NlaView, NLMSG_DONE, NLMSG_ERROR, NLM_F_DUMP, NLM_F_REQUEST,
};
use crate::wire::{field, lemma_radix_pow_values, read_uint, ByteOrder};
use vstd::prelude::*;
use vstd::utf8::{decode_utf8, valid_utf8};

verus! {

/// Message type of a link query.
pub const RTM_GETLINK: u16 = 18;

/// Attribute holding `struct rtnl_link_stats64`.
pub const IFLA_STATS64: u16 = 23;

/// Attribute holding the interface name.
pub const IFLA_IFNAME: u16 = 3;

/// Length of `struct ifinfomsg`, which opens a link message's payload.
pub const IFINFOMSG_LEN: usize = 16;

/// Snapshot of one interface's byte counters.
#[derive(Clone, Debug)]
pub struct IfStats {
    pub name: String,
    pub rx_bytes: u64,
    pub tx_bytes: u64,
}

/// What an [`IfStats`] holds, with the name as characters.
pub struct IfStatsView {
    pub name: Seq<char>,
    pub rx_bytes: u64,
    pub tx_bytes: u64,
}

impl View for IfStats {
    type V = IfStatsView;

    open spec fn view(&self) -> IfStatsView {
        IfStatsView { name: self.name@, rx_bytes: self.rx_bytes, tx_bytes: self.tx_bytes }
    }
}

pub open spec fn opt_stats_view(s: Option<IfStats>) -> Option<IfStatsView> {
    match s {
        Some(x) => Some(x@),
        None => None,
    }
}

pub open spec fn stats_views(v: Seq<IfStats>) -> Seq<IfStatsView> {
    v.map_values(|s: IfStats| s@)
}

/// Received bytes and sent bytes of `struct rtnl_link_stats64`, whose u64
/// fields run `rx_packets`, `tx_packets`, `rx_bytes`, `tx_bytes`, ...: the
/// third and fourth fields, or zeros when the data is too short to hold them.
pub open spec fn link_stats(order: ByteOrder, data: Seq<u8>) -> (u64, u64) {
    if data.len() < 32 {
        (0, 0)
    } else {
        (field(order, data, 16, 8) as u64, field(order, data, 24, 8) as u64)
    }
}

/// Reads rx_bytes and tx_bytes from an `IFLA_STATS64` attribute.
pub fn parse_link_stats64(order: ByteOrder, data: &[u8]) -> (r: (u64, u64))
    ensures
        r == link_stats(order, data@),
{
    if data.len() < 32 {
        return (0, 0);
    }
    let rx = read_uint(order, data, 16, 8);
    let tx = read_uint(order, data, 24, 8);
    (rx, tx)
}

/// Number of bytes before the first zero byte (all of them if there is none).
pub open spec fn nul_position(d: Seq<u8>) -> nat
    decreases d.len(),
{
    if d.len() == 0 {
        0
    } else if d[0] == 0 {
        0
    } else {
        1 + nul_position(d.drop_first())
    }
}

/// The text of a string attribute: the bytes before the first zero byte,
/// decoded as UTF-8, or the empty text when they are not valid UTF-8.
pub open spec fn attr_text(d: Seq<u8>) -> Seq<char> {
    let p = d.take(nul_position(d) as int);
    if valid_utf8(p) {
        decode_utf8(p)
    } else {
        seq![]
    }
}

/// `std::str::from_utf8`: succeeds exactly on valid UTF-8, and the string
/// it gives back has exactly the bytes it was given.
#[verifier::external_body]
fn utf8_str(bytes: &[u8]) -> (r: Option<&str>)
    ensures
        r is Some <==> valid_utf8(bytes@),
        r matches Some(s) ==> s@ == decode_utf8(bytes@),
{
    std::str::from_utf8(bytes).ok()
}

/// The text of a string attribute, as in [`attr_text`].
pub fn attribute_text(d: &[u8]) -> (s: String)
    ensures
        s@ == attr_text(d@),
{
    let mut end: usize = 0;
    proof {
        assert(d@.skip(0) =~= d@);
    }
    while end < d.len() && d[end] != 0
        invariant
            end <= d.len(),
            nul_position(d@) == end + nul_position(d@.skip(end as int)),
        decreases d.len() - end,
    {
        proof {
            assert(d@.skip(end as int).drop_first() =~= d@.skip(end + 1));
        }
        end = end + 1;
    }
    proof {
        if end < d.len() {
            assert(d@.skip(end as int)[0] == 0);
        }
        assert(nul_position(d@) == end);
    }
    let prefix = &d[0..end];
    proof {
        assert(prefix@ =~= d@.take(end as int));
    }
    match utf8_str(prefix) {
        Some(text) => text.to_owned(),
        None => String::new(),
    }
}

/// Data of the last attribute of the given type, if any.
pub open spec fn last_of_type(attrs: Seq<NlaView>, t: u16) -> Option<Seq<u8>>
    decreases attrs.len(),
{
    if attrs.len() == 0 {
        None
    } else if attrs.last().attr_type == t {
        Some(attrs.last().data)
    } else {
        last_of_type(attrs.drop_last(), t)
    }
}

/// The interface name a link message carries: the last `IFLA_IFNAME`.
pub open spec fn link_name(attrs: Seq<NlaView>) -> Seq<char> {
    match last_of_type(attrs, IFLA_IFNAME) {
        Some(d) => attr_text(d),
        None => seq![],
    }
}

/// The counters a link message carries: from the last `IFLA_STATS64`.
pub open spec fn link_counters(order: ByteOrder, attrs: Seq<NlaView>) -> (u64, u64) {
    match last_of_type(attrs, IFLA_STATS64) {
        Some(d) => link_stats(order, d),
        None => (0, 0),
    }
}

/// The interface statistics one `RTM_GETLINK` reply describes; none for a
/// payload too short to hold `struct ifinfomsg`, for an interface without a
/// name, and for the loopback interface `lo`.
pub open spec fn ifstats_of(order: ByteOrder, m: NlMsgView) -> Option<IfStatsView> {
    if m.payload.len() < 16 {
        None
    } else {
        let attrs = attributes(order, m.payload.skip(16));
        let name = link_name(attrs);
        let (rx, tx) = link_counters(order, attrs);
        if name.len() == 0 || name == seq!['l', 'o'] {
            None
        } else {
            Some(IfStatsView { name, rx_bytes: rx, tx_bytes: tx })
        }
    }
}

/// Parses a single `RTM_GETLINK` reply into [`IfStats`].
pub fn parse_ifstats(order: ByteOrder, nlmsg: &NlMsg) -> (r: Option<IfStats>)
    ensures
        opt_stats_view(r) == ifstats_of(order, nlmsg@),
        r matches Some(s) ==> s.name@.len() > 0 && s.name@ != seq!['l', 'o'],
{
    if nlmsg.payload.len() < IFINFOMSG_LEN {
        return None;
    }
    let attrs = parse_attributes(order, &nlmsg.payload.as_slice()[IFINFOMSG_LEN..nlmsg.payload.len()]);
    let ghost av = nla_views(attrs@);
    proof {
        assert(nlmsg.payload@.subrange(16, nlmsg.payload@.len() as int) =~= nlmsg.payload@.skip(16));
    }
    let mut name = String::new();
    let mut rx_bytes: u64 = 0;
    let mut tx_bytes: u64 = 0;
    let mut i: usize = 0;
    proof {
        assert(av.take(0) =~= Seq::<NlaView>::empty());
    }
    while i < attrs.len()
        invariant
            i <= attrs.len(),
            av == nla_views(attrs@),
            av.len() == attrs@.len(),
            name@ == link_name(av.take(i as int)),
            (rx_bytes, tx_bytes) == link_counters(order, av.take(i as int)),
        decreases attrs.len() - i,
    {
        let nla = &attrs[i];
        proof {
            assert(av.take(i + 1).drop_last() =~= av.take(i as int));
            assert(av.take(i + 1).last() == nla@);
        }
        if nla.attr_type == IFLA_IFNAME {
            name = attribute_text(nla.data.as_slice());
        } else if nla.attr_type == IFLA_STATS64 {
            let (rx, tx) = parse_link_stats64(order, nla.data.as_slice());
            rx_bytes = rx;
            tx_bytes = tx;
        }
        i = i + 1;
    }
    proof {
        assert(av.take(i as int) =~= av);
        reveal_strlit("lo");
    }
    let lo = "lo".to_owned();
    proof {
        assert(lo@ =~= seq!['l', 'o']);
    }
    if name.as_str().is_empty() || name == lo {
        return None;
    }
    Some(IfStats { name, rx_bytes, tx_bytes })
}

/// The `RTM_GETLINK` dump request: a request for every link, with an
/// all-zero `struct ifinfomsg` as payload.
pub open spec fn getlink_request_bytes(order: ByteOrder, seq: u32) -> Seq<u8> {
    message_bytes(order, RTM_GETLINK, 0x301, seq, 0, Seq::new(16, |i: int| 0u8))
}

/// Builds the `RTM_GETLINK` dump request with the given sequence number.
pub fn getlink_request(order: ByteOrder, seq: u32) -> (bytes: Vec<u8>)
    ensures
        bytes@ == getlink_request_bytes(order, seq),
{
    let mut payload: Vec<u8> = Vec::new();
    while payload.len() < IFINFOMSG_LEN
        invariant
            payload.len() <= 16,
            forall|i: int| 0 <= i < payload.len() ==> payload@[i] == 0u8,
        decreases 16 - payload.len(),
    {
        payload.push(0u8);
    }
    let flags = NLM_F_REQUEST | NLM_F_DUMP;
    assert(flags == 0x301) by (bit_vector)
        requires
            flags == 1u16 | 0x300u16,
    ;
    proof {
        assert(payload@ =~= Seq::new(16, |i: int| 0u8));
    }
    build_message(order, RTM_GETLINK, flags, seq, 0, payload.as_slice())
}

/// The messages of a run of received buffers, in order.
pub open spec fn all_messages(order: ByteOrder, datagrams: Seq<Seq<u8>>) -> Seq<NlMsgView>
    decreases datagrams.len(),
{
    if datagrams.len() == 0 {
        seq![]
    } else {
        all_messages(order, datagrams.drop_last()) + messages(order, datagrams.last())
    }
}

/// The number a 32-bit two's-complement integer with these bits stands for.
pub open spec fn signed32(v: nat) -> int {
    if v < 0x8000_0000 {
        v as int
    } else {
        v - 0x1_0000_0000
    }
}

/// The error code of an `NLMSG_ERROR` message (a negated errno, or zero for
/// an acknowledgement); zero when the payload is too short to hold one.
pub open spec fn error_code(order: ByteOrder, payload: Seq<u8>) -> int {
    if payload.len() < 4 {
        0
    } else {
        signed32(field(order, payload, 0, 4))
    }
}

/// Errors a dump can end with.
#[derive(Clone, Copy, Debug, PartialEq, Eq, Structural)]
pub enum DumpError {
    /// The kernel answered with this (negative) error code.
    Kernel(i32),
}

/// The outcome of a dump: walking the messages in order, `NLMSG_DONE` or an
/// acknowledgement ends it, an `NLMSG_ERROR` with a nonzero code fails it,
/// and every other message adds the interface it describes, if any. Running
/// out of messages ends it too.
pub open spec fn dump_outcome(order: ByteOrder, msgs: Seq<NlMsgView>) -> Result<
    Seq<IfStatsView>,
    DumpError,
>
    decreases msgs.len(),
{
    if msgs.len() == 0 {
        Ok(seq![])
    } else {
        let m = msgs[0];
        if m.msg_type == NLMSG_DONE {
            Ok(seq![])
        } else if m.msg_type == NLMSG_ERROR {
            let code = error_code(order, m.payload);
            if code != 0 {
                Err(DumpError::Kernel(code as i32))
            } else {
                Ok(seq![])
            }
        } else {
            match dump_outcome(order, msgs.drop_first()) {
                Ok(rest) => Ok(
                    match ifstats_of(order, m) {
                        Some(x) => seq![x] + rest,
                        None => rest,
                    },
                ),
                Err(e) => Err(e),
            }
        }
    }
}

pub open spec fn after(acc: Seq<IfStatsView>, r: Result<Seq<IfStatsView>, DumpError>) -> Result<
    Seq<IfStatsView>,
    DumpError,
> {
    match r {
        Ok(x) => Ok(acc + x),
        Err(e) => Err(e),
    }
}

pub open spec fn dump_view(r: Result<Vec<IfStats>, DumpError>) -> Result<Seq<IfStatsView>, DumpError> {
    match r {
        Ok(v) => Ok(stats_views(v@)),
        Err(e) => Err(e),
    }
}

fn error_code_of(order: ByteOrder, payload: &Vec<u8>) -> (c: i32)
    ensures
        c as int == error_code(order, payload@),
{
    if payload.len() < 4 {
        return 0;
    }
    let v = read_uint(order, payload.as_slice(), 0, 4);
    proof {
        lemma_radix_pow_values();
    }
    if v < 0x8000_0000 {
        v as i32
    } else {
        (v as i64 - 0x1_0000_0000) as i32
    }
}

/// Walks the messages of a dump, as [`dump_outcome`] says.
pub fn collect_ifstats(order: ByteOrder, msgs: &Vec<NlMsg>) -> (r: Result<Vec<IfStats>, DumpError>)
    ensures
        dump_view(r) == dump_outcome(order, msg_views(msgs@)),
{
    let ghost all = msg_views(msgs@);
    let mut out: Vec<IfStats> = Vec::new();
    let mut i: usize = 0;
    proof {
        assert(all.skip(0) =~= all);
        assert(stats_views(out@) =~= Seq::<IfStatsView>::empty());
        assert(after(stats_views(out@), dump_outcome(order, all)) =~= dump_outcome(order, all)) by {
            match dump_outcome(order, all) {
                Ok(x) => {
                    assert(Seq::<IfStatsView>::empty() + x =~= x);
                },
                Err(_) => {},
            }
        }
    }
    while i < msgs.len()
        invariant
            i <= msgs.len(),
            all == msg_views(msgs@),
            all.len() == msgs@.len(),
            dump_outcome(order, all) == after(stats_views(out@), dump_outcome(order, all.skip(i as int))),
        decreases msgs.len() - i,
    {
        let m = &msgs[i];
        let ghost rest = all.skip(i as int);
        proof {
            assert(rest[0] == m@);
            assert(rest.drop_first() =~= all.skip(i + 1));
        }
        if m.msg_type == NLMSG_DONE {
            proof {
                assert(stats_views(out@) + seq![] =~= stats_views(out@));
            }
            return Ok(out);
        }
        if m.msg_type == NLMSG_ERROR {
            let code = error_code_of(order, &m.payload);
            if code != 0 {
                return Err(DumpError::Kernel(code));
            }
            proof {
                assert(stats_views(out@) + seq![] =~= stats_views(out@));
            }
            return Ok(out);
        }
        let parsed = parse_ifstats(order, m);
        match parsed {
            Some(st) => {
                proof {
                    let sv = st@;
                    assert(stats_views(out@.push(st)) =~= stats_views(out@).push(sv));
                    match dump_outcome(order, all.skip(i + 1)) {
                        Ok(x) => {
                            assert(stats_views(out@).push(sv) + x =~= stats_views(out@) + (seq![sv] + x));
                        },
                        Err(_) => {},
                    }
                }
                out.push(st);
            },
            None => {},
        }
        i = i + 1;
    }
    proof {
        assert(all.skip(i as int) =~= Seq::<NlMsgView>::empty());
        assert(stats_views(out@) + seq![] =~= stats_views(out@));
    }
    Ok(out)
}

/// Reads the interface statistics out of the buffers received in answer to
/// [`getlink_request`], in the order they came.
pub fn read_all_ifstats(order: ByteOrder, datagrams: &Vec<Vec<u8>>) -> (r: Result<Vec<IfStats>, DumpError>)
    ensures
        dump_view(r) == dump_outcome(
            order,
            all_messages(order, datagrams@.map_values(|d: Vec<u8>| d@)),
        ),
{
    let ghost ds = datagrams@.map_values(|d: Vec<u8>| d@);
    let mut msgs: Vec<NlMsg> = Vec::new();
    let mut i: usize = 0;
    proof {
        assert(ds.take(0) =~= Seq::<Seq<u8>>::empty());
        assert(msg_views(msgs@) =~= Seq::<NlMsgView>::empty());
    }
    while i < datagrams.len()
        invariant
            i <= datagrams.len(),
            ds == datagrams@.map_values(|d: Vec<u8>| d@),
            msg_views(msgs@) == all_messages(order, ds.take(i as int)),
        decreases datagrams.len() - i,
    {
        let mut part = parse_messages(order, datagrams[i].as_slice());
        proof {
            assert(ds.take(i + 1).drop_last() =~= ds.take(i as int));
            assert(ds.take(i + 1).last() == datagrams@[i as int]@);
            assert(msg_views(msgs@ + part@) =~= msg_views(msgs@) + msg_views(part@));
        }
        msgs.append(&mut part);
        i = i + 1;
    }
    proof {
        assert(ds.take(i as int) =~= ds);
    }
    collect_ifstats(order, &msgs)
}

/// Whether a message is one that ends a dump.
pub open spec fn ends_dump(m: NlMsgView) -> bool {
    m.msg_type == NLMSG_DONE || m.msg_type == NLMSG_ERROR
}

/// Whether a received buffer holds the message that ends a dump
/// (`NLMSG_DONE` or `NLMSG_ERROR`), so that no more need be read.
pub fn dump_ended(order: ByteOrder, datagram: &[u8]) -> (ended: bool)
    ensures
        ended == exists|k: int|
            0 <= k < messages(order, datagram@).len() && ends_dump(
                #[trigger] messages(order, datagram@)[k],
            ),
{
    let msgs = parse_messages(order, datagram);
    let ghost mv = msg_views(msgs@);
    let mut i: usize = 0;
    while i < msgs.len()
        invariant
            i <= msgs.len(),
            mv == msg_views(msgs@),
            mv == messages(order, datagram@),
            mv.len() == msgs@.len(),
            forall|k: int| 0 <= k < i ==> !ends_dump(#[trigger] mv[k]),
        decreases msgs.len() - i,
    {
        let t = msgs[i].msg_type;
        proof {
            assert(mv[i as int].msg_type == t);
        }
        if t == NLMSG_DONE || t == NLMSG_ERROR {
            proof {
                assert(ends_dump(messages(order, datagram@)[i as int]));
            }
            return true;
        }
        i = i + 1;
    }
    false
}

/// How much a counter grew; zero when it went down (the counter was reset).
pub open spec fn counter_growth(now: u64, before: u64) -> nat {
    if now >= before {
        (now - before) as nat
    } else {
        0
    }
}

/// The first snapshot in `prev` taken of the interface with this name.
pub open spec fn first_named(prev: Seq<IfStatsView>, name: Seq<char>) -> Option<IfStatsView>
    decreases prev.len(),
{
    if prev.len() == 0 {
        None
    } else if prev[0].name == name {
        Some(prev[0])
    } else {
        first_named(prev.drop_first(), name)
    }
}

/// Bytes received between two snapshots, summed over the interfaces of
/// `curr` that `prev` also has.
pub open spec fn rx_growth(prev: Seq<IfStatsView>, curr: Seq<IfStatsView>) -> nat
    decreases curr.len(),
{
    if curr.len() == 0 {
        0
    } else {
        rx_growth(prev, curr.drop_last()) + match first_named(prev, curr.last().name) {
            Some(p) => counter_growth(curr.last().rx_bytes, p.rx_bytes),
            None => 0,
        }
    }
}

/// Bytes sent between two snapshots, summed over the interfaces of `curr`
/// that `prev` also has.
pub open spec fn tx_growth(prev: Seq<IfStatsView>, curr: Seq<IfStatsView>) -> nat
    decreases curr.len(),
{
    if curr.len() == 0 {
        0
    } else {
        tx_growth(prev, curr.drop_last()) + match first_named(prev, curr.last().name) {
            Some(p) => counter_growth(curr.last().tx_bytes, p.tx_bytes),
            None => 0,
        }
    }
}

proof fn lemma_growth_prefix(prev: Seq<IfStatsView>, curr: Seq<IfStatsView>, i: int)
    requires
        0 <= i <= curr.len(),
    ensures
        rx_growth(prev, curr.take(i)) <= rx_growth(prev, curr),
        tx_growth(prev, curr.take(i)) <= tx_growth(prev, curr),
    decreases curr.len(),
{
    if i < curr.len() {
        assert(curr.drop_last().take(i) =~= curr.take(i));
        lemma_growth_prefix(prev, curr.drop_last(), i);
    } else {
        assert(curr.take(i) =~= curr);
    }
}

/// Index of the first snapshot in `prev` of the interface with this name.
fn find_named(prev: &[IfStats], name: &String) -> (r: Option<usize>)
    ensures
        match r {
            Some(j) => j < prev@.len() && first_named(stats_views(prev@), name@) == Some(prev@[j as int]@),
            None => first_named(stats_views(prev@), name@) is None,
        },
{
    let ghost pv = stats_views(prev@);
    let mut j: usize = 0;
    proof {
        assert(pv.skip(0) =~= pv);
    }
    while j < prev.len()
        invariant
            j <= prev@.len(),
            pv == stats_views(prev@),
            pv.len() == prev@.len(),
            first_named(pv, name@) == first_named(pv.skip(j as int), name@),
        decreases prev.len() - j,
    {
        proof {
            assert(pv.skip(j as int)[0] == prev@[j as int]@);
            assert(pv.skip(j as int).drop_first() =~= pv.skip(j + 1));
        }
        if prev[j].name == *name {
            return Some(j);
        }
        j = j + 1;
    }
    None
}

/// Total bytes received and sent between two snapshots, counting each
/// interface of `curr` against the first snapshot of the same name in `prev`
/// (a counter that went down counts as zero, an interface not in `prev` is
/// skipped); `None` when a total does not fit in 64 bits.
pub fn net_byte_deltas(prev: &[IfStats], curr: &[IfStats]) -> (r: Option<(u64, u64)>)
    ensures
        ({
            let rx = rx_growth(stats_views(prev@), stats_views(curr@));
            let tx = tx_growth(stats_views(prev@), stats_views(curr@));
            r == if rx <= u64::MAX && tx <= u64::MAX {
                Some((rx as u64, tx as u64))
            } else {
                None::<(u64, u64)>
            }
        }),
{
    let ghost pv = stats_views(prev@);
    let ghost cv = stats_views(curr@);
    let mut rx: u64 = 0;
    let mut tx: u64 = 0;
    let mut i: usize = 0;
    proof {
        assert(cv.take(0) =~= Seq::<IfStatsView>::empty());
    }
    while i < curr.len()
        invariant
            i <= curr@.len(),
            pv == stats_views(prev@),
            cv == stats_views(curr@),
            cv.len() == curr@.len(),
            rx == rx_growth(pv, cv.take(i as int)),
            tx == tx_growth(pv, cv.take(i as int)),
        decreases curr.len() - i,
    {
        let c = &curr[i];
        proof {
            assert(cv.take(i + 1).drop_last() =~= cv.take(i as int));
            assert(cv.take(i + 1).last() == c@);
            lemma_growth_prefix(pv, cv, i + 1);
        }
        match find_named(prev, &c.name) {
            Some(j) => {
                let p = &prev[j];
                let drx = if c.rx_bytes >= p.rx_bytes { c.rx_bytes - p.rx_bytes } else { 0 };
                let dtx = if c.tx_bytes >= p.tx_bytes { c.tx_bytes - p.tx_bytes } else { 0 };
                match rx.checked_add(drx) {
                    Some(v) => { rx = v; },
                    None => { return None; },
                }
                match tx.checked_add(dtx) {
                    Some(v) => { tx = v; },
                    None => { return None; },
                }
            },
            None => {},
        }
        i = i + 1;
    }
    proof {
        assert(cv.take(i as int) =~= cv);
    }
    Some((rx, tx))
}

/// Bytes received and sent by one interface since the first snapshot of the
/// same name in `prev`; zero when `prev` has none.
pub open spec fn interface_growth(prev: Seq<IfStatsView>, c: IfStatsView) -> (nat, nat) {
    match first_named(prev, c.name) {
        Some(p) => (counter_growth(c.rx_bytes, p.rx_bytes), counter_growth(c.tx_bytes, p.tx_bytes)),
        None => (0, 0),
    }
}

/// Bytes received and sent by each interface of `curr` since `prev`, in the
/// order of `curr`, each counted as [`net_byte_deltas`] counts it.
pub fn interface_deltas(prev: &[IfStats], curr: &[IfStats]) -> (r: Vec<(u64, u64)>)
    ensures
        r@.len() == curr@.len(),
        forall|i: int|
            0 <= i < curr@.len() ==> {
                let g = interface_growth(stats_views(prev@), #[trigger] curr@[i]@);
                r@[i].0 == g.0 && r@[i].1 == g.1
            },
{
    let mut out: Vec<(u64, u64)> = Vec::new();
    let mut i: usize = 0;
    while i < curr.len()
        invariant
            i <= curr@.len(),
            out@.len() == i,
            forall|k: int|
                0 <= k < i ==> {
                    let g = interface_growth(stats_views(prev@), #[trigger] curr@[k]@);
                    out@[k].0 == g.0 && out@[k].1 == g.1
                },
        decreases curr.len() - i,
    {
        let c = &curr[i];
        let d = match find_named(prev, &c.name) {
            Some(j) => {
                let p = &prev[j];
                let drx = if c.rx_bytes >= p.rx_bytes { c.rx_bytes - p.rx_bytes } else { 0 };
                let dtx = if c.tx_bytes >= p.tx_bytes { c.tx_bytes - p.tx_bytes } else { 0 };
                (drx, dtx)
            },
            None => (0, 0),
        };
        out.push(d);
        i = i + 1;
    }
    out
}

/// No interface name comes back later in the snapshot with a larger
/// counter than it had before.
pub open spec fn no_later_larger(s: Seq<IfStatsView>) -> bool {
    forall|a: int, b: int|
        0 <= a < b < s.len() && (#[trigger] s[a]).name == (#[trigger] s[b]).name ==> s[b].rx_bytes
            <= s[a].rx_bytes && s[b].tx_bytes <= s[a].tx_bytes
}

/// The first snapshot of an interface's name is at or before the interface.
proof fn lemma_first_named_earlier(s: Seq<IfStatsView>, k: int)
    requires
        0 <= k < s.len(),
    ensures
        exists|j: int|
            0 <= j <= k && #[trigger] s[j].name == s[k].name && first_named(s, s[k].name) == Some(
                s[j],
            ),
    decreases k,
{
    if s[0].name == s[k].name {
        assert(s[0].name == s[k].name && first_named(s, s[k].name) == Some(s[0]));
    } else {
        let rest = s.drop_first();
        assert(rest[k - 1] == s[k]);
        lemma_first_named_earlier(rest, k - 1);
        let j = choose|j: int|
            0 <= j <= k - 1 && #[trigger] rest[j].name == rest[k - 1].name && first_named(
                rest,
                rest[k - 1].name,
            ) == Some(rest[j]);
        assert(rest[j] == s[j + 1]);
        assert(s[j + 1].name == s[k].name && first_named(s, s[k].name) == Some(s[j + 1]));
    }
}

/// Two snapshots that are the same show no traffic, as long as no interface
/// name comes back later in the snapshot with a larger counter (in
/// particular, whenever the names are distinct).
pub proof fn lemma_same_snapshot_no_growth(s: Seq<IfStatsView>)
    requires
        no_later_larger(s),
    ensures
        rx_growth(s, s) == 0,
        tx_growth(s, s) == 0,
{
    assert forall|i: int| 0 <= i <= s.len() implies rx_growth(s, #[trigger] s.take(i)) == 0
        && tx_growth(s, s.take(i)) == 0 by {
        lemma_prefix_no_growth(s, i);
    }
    assert(s.take(s.len() as int) =~= s);
}

proof fn lemma_prefix_no_growth(s: Seq<IfStatsView>, i: int)
    requires
        no_later_larger(s),
        0 <= i <= s.len(),
    ensures
        rx_growth(s, s.take(i)) == 0,
        tx_growth(s, s.take(i)) == 0,
    decreases i,
{
    if i > 0 {
        lemma_prefix_no_growth(s, i - 1);
        assert(s.take(i).drop_last() =~= s.take(i - 1));
        assert(s.take(i).last() == s[i - 1]);
        lemma_first_named_earlier(s, i - 1);
        let j = choose|j: int|
            0 <= j <= i - 1 && #[trigger] s[j].name == s[i - 1].name && first_named(
                s,
                s[i - 1].name,
            ) == Some(s[j]);
        if j < i - 1 {
            assert(s[j].name == s[i - 1].name);
        }
    }
}

/// The dump request reads back as a single `RTM_GETLINK` request for a dump
/// with an all-zero `struct ifinfomsg`.
pub proof fn lemma_getlink_request_parses(order: ByteOrder, seq: u32)
    ensures
        messages(order, getlink_request_bytes(order, seq)) == seq![
            NlMsgView {
                msg_type: RTM_GETLINK,
                flags: 0x301,
                seq,
                pid: 0,
                payload: Seq::new(16, |i: int| 0u8),
            },
        ],
{
    lemma_message_roundtrip(order, RTM_GETLINK, 0x301, seq, 0, Seq::new(16, |i: int| 0u8));
}

/// A dump never yields the loopback interface or an interface without a
/// name.
pub proof fn lemma_dump_excludes_loopback(order: ByteOrder, msgs: Seq<NlMsgView>)
    ensures
        dump_outcome(order, msgs) matches Ok(v) ==> forall|i: int|
            0 <= i < v.len() ==> (#[trigger] v[i]).name.len() > 0 && v[i].name != seq!['l', 'o'],
    decreases msgs.len(),
{
    if msgs.len() > 0 {
        lemma_dump_excludes_loopback(order, msgs.drop_first());
        let m = msgs[0];
        if m.msg_type != NLMSG_DONE && m.msg_type != NLMSG_ERROR {
            match dump_outcome(order, msgs.drop_first()) {
                Ok(rest) => {
                    match ifstats_of(order, m) {
                        Some(x) => {
                            let v = seq![x] + rest;
                            assert forall|i: int| 0 <= i < v.len() implies (#[trigger] v[i]).name.len()
                                > 0 && v[i].name != seq!['l', 'o'] by {
                                if i > 0 {
                                    assert(v[i] == rest[i - 1]);
                                }
                            }
                        },
                        None => {},
                    }
                },
                Err(_) => {},
            }
        }
    }
}

/// Nothing after the message that ends a dump changes its outcome: once a
/// `NLMSG_DONE` or `NLMSG_ERROR` has been received, more messages can be
/// left unread.
pub proof fn lemma_dump_ignores_rest(order: ByteOrder, a: Seq<NlMsgView>, b: Seq<NlMsgView>)
    requires
        exists|k: int| 0 <= k < a.len() && ends_dump(#[trigger] a[k]),
    ensures
        dump_outcome(order, a + b) == dump_outcome(order, a),
    decreases a.len(),
{
    let ab = a + b;
    assert(ab[0] == a[0]);
    if !ends_dump(a[0]) {
        let k = choose|k: int| 0 <= k < a.len() && ends_dump(#[trigger] a[k]);
        assert(k > 0);
        assert(a.drop_first()[k - 1] == a[k]);
        lemma_dump_ignores_rest(order, a.drop_first(), b);
        assert(ab.drop_first() =~= a.drop_first() + b);
    }
}

/// Traffic between two snapshots adds up over the interfaces: splitting the
/// current snapshot in two splits the totals.
pub proof fn lemma_growth_additive(prev: Seq<IfStatsView>, a: Seq<IfStatsView>, b: Seq<IfStatsView>)
    ensures
        rx_growth(prev, a + b) == rx_growth(prev, a) + rx_growth(prev, b),
        tx_growth(prev, a + b) == tx_growth(prev, a) + tx_growth(prev, b),
    decreases b.len(),
{
    if b.len() == 0 {
        assert(a + b =~= a);
    } else {
        lemma_growth_additive(prev, a, b.drop_last());
        assert((a + b).drop_last() =~= a + b.drop_last());
        assert((a + b).last() == b.last());
    }
}

/// The attributes of a link message, after its `struct ifinfomsg`.
pub open spec fn link_attributes(order: ByteOrder, m: NlMsgView) -> Seq<NlaView> {
    attributes(order, m.payload.skip(16))
}

proof fn lemma_last_of_type_at(attrs: Seq<NlaView>, t: u16, k: int)
    requires
        0 <= k < attrs.len(),
        attrs[k].attr_type == t,
        forall|j: int| k < j < attrs.len() ==> (#[trigger] attrs[j]).attr_type != t,
    ensures
        last_of_type(attrs, t) == Some(attrs[k].data),
    decreases attrs.len(),
{
    if k < attrs.len() - 1 {
        let rest = attrs.drop_last();
        assert forall|j: int| k < j < rest.len() implies (#[trigger] rest[j]).attr_type != t by {
            assert(rest[j] == attrs[j]);
        }
        lemma_last_of_type_at(rest, t, k);
    }
}

proof fn lemma_last_of_type_absent(attrs: Seq<NlaView>, t: u16)
    requires
        forall|j: int| 0 <= j < attrs.len() ==> (#[trigger] attrs[j]).attr_type != t,
    ensures
        last_of_type(attrs, t) is None,
    decreases attrs.len(),
{
    if attrs.len() > 0 {
        let rest = attrs.drop_last();
        assert forall|j: int| 0 <= j < rest.len() implies (#[trigger] rest[j]).attr_type != t by {
            assert(rest[j] == attrs[j]);
        }
        lemma_last_of_type_absent(rest, t);
    }
}

/// The name of a link message is read from its last `IFLA_IFNAME`, wherever
/// that stands among the attributes: the message describes an interface
/// exactly when that text is neither empty nor `lo`, and then under that name.
pub proof fn lemma_ifstats_name_from_last_ifname(order: ByteOrder, m: NlMsgView, n: int)
    requires
        m.payload.len() >= 16,
        0 <= n < link_attributes(order, m).len(),
        link_attributes(order, m)[n].attr_type == IFLA_IFNAME,
        forall|j: int|
            n < j < link_attributes(order, m).len() ==> (#[trigger] link_attributes(order, m)[j]).attr_type
                != IFLA_IFNAME,
    ensures
        ifstats_of(order, m) is Some <==> (attr_text(link_attributes(order, m)[n].data).len() > 0
            && attr_text(link_attributes(order, m)[n].data) != seq!['l', 'o']),
        ifstats_of(order, m) matches Some(x) ==> x.name == attr_text(
            link_attributes(order, m)[n].data,
        ),
{
    lemma_last_of_type_at(link_attributes(order, m), IFLA_IFNAME, n);
}

/// A link message without any `IFLA_IFNAME` describes no interface.
pub proof fn lemma_ifstats_needs_a_name(order: ByteOrder, m: NlMsgView)
    requires
        forall|j: int|
            0 <= j < link_attributes(order, m).len() ==> (#[trigger] link_attributes(order, m)[j]).attr_type
                != IFLA_IFNAME,
    ensures
        ifstats_of(order, m) is None,
{
    lemma_last_of_type_absent(link_attributes(order, m), IFLA_IFNAME);
}

/// The counters of an interface are its byte counters from the last
/// `IFLA_STATS64` of the message, however many attributes stand before it:
/// `rx_bytes` and `tx_bytes`, the third and fourth u64 of
/// `struct rtnl_link_stats64`.
pub proof fn lemma_ifstats_counters_from_last_stats(order: ByteOrder, m: NlMsgView, k: int)
    requires
        m.payload.len() >= 16,
        0 <= k < link_attributes(order, m).len(),
        link_attributes(order, m)[k].attr_type == IFLA_STATS64,
        forall|j: int|
            k < j < link_attributes(order, m).len() ==> (#[trigger] link_attributes(order, m)[j]).attr_type
                != IFLA_STATS64,
    ensures
        ifstats_of(order, m) matches Some(x) ==> {
            let d = link_attributes(order, m)[k].data;
            &&& d.len() >= 32 ==> x.rx_bytes == field(order, d, 16, 8) && x.tx_bytes == field(
                order,
                d,
                24,
                8,
            )
            &&& d.len() < 32 ==> x.rx_bytes == 0 && x.tx_bytes == 0
        },
{
    lemma_last_of_type_at(link_attributes(order, m), IFLA_STATS64, k);
    let d = link_attributes(order, m)[k].data;
    if d.len() >= 32 {
        lemma_radix_pow_values();
        let rx = field(order, d, 16, 8);
        let tx = field(order, d, 24, 8);
        assert(d.subrange(16, 24).len() == 8);
        crate::wire::lemma_field_bound(order, d, 16, 8);
        crate::wire::lemma_field_bound(order, d, 24, 8);
    }
}

/// A link message without any `IFLA_STATS64` shows no traffic.
pub proof fn lemma_ifstats_counters_without_stats(order: ByteOrder, m: NlMsgView)
    requires
        forall|j: int|
            0 <= j < link_attributes(order, m).len() ==> (#[trigger] link_attributes(order, m)[j]).attr_type
                != IFLA_STATS64,
    ensures
        ifstats_of(order, m) matches Some(x) ==> x.rx_bytes == 0 && x.tx_bytes == 0,
{
    lemma_last_of_type_absent(link_attributes(order, m), IFLA_STATS64);
}

/// One interface against its first earlier snapshot `prev[j]` of the same
/// name: it received what its receive counter grew by and sent what its send
/// counter grew by, each on its own (a counter that went down counts zero);
/// the total over the snapshot is that interface's share, and the two
/// counters never affect each other.
pub proof fn lemma_single_interface_growth(prev: Seq<IfStatsView>, c: IfStatsView, j: int)
    requires
        0 <= j < prev.len(),
        prev[j].name == c.name,
        forall|i: int| 0 <= i < j ==> (#[trigger] prev[i]).name != c.name,
    ensures
        c.rx_bytes >= prev[j].rx_bytes ==> rx_growth(prev, seq![c]) == c.rx_bytes - prev[j].rx_bytes,
        c.rx_bytes < prev[j].rx_bytes ==> rx_growth(prev, seq![c]) == 0,
        c.tx_bytes >= prev[j].tx_bytes ==> tx_growth(prev, seq![c]) == c.tx_bytes - prev[j].tx_bytes,
        c.tx_bytes < prev[j].tx_bytes ==> tx_growth(prev, seq![c]) == 0,
        c.rx_bytes >= prev[j].rx_bytes ==> interface_growth(prev, c).0 == c.rx_bytes
            - prev[j].rx_bytes,
        c.rx_bytes < prev[j].rx_bytes ==> interface_growth(prev, c).0 == 0,
        c.tx_bytes >= prev[j].tx_bytes ==> interface_growth(prev, c).1 == c.tx_bytes
            - prev[j].tx_bytes,
        c.tx_bytes < prev[j].tx_bytes ==> interface_growth(prev, c).1 == 0,
{
    lemma_first_named_is(prev, c.name, j);
    let one = seq![c];
    assert(one.drop_last() =~= Seq::<IfStatsView>::empty());
    assert(one.last() == c);
    assert(rx_growth(prev, one.drop_last()) == 0);
    assert(tx_growth(prev, one.drop_last()) == 0);
}

/// An interface that `prev` has no snapshot of contributes nothing.
pub proof fn lemma_new_interface_no_growth(prev: Seq<IfStatsView>, c: IfStatsView)
    requires
        forall|i: int| 0 <= i < prev.len() ==> (#[trigger] prev[i]).name != c.name,
    ensures
        rx_growth(prev, seq![c]) == 0,
        tx_growth(prev, seq![c]) == 0,
        interface_growth(prev, c) == (0nat, 0nat),
    decreases prev.len(),
{
    lemma_first_named_none(prev, c.name);
    let one = seq![c];
    assert(one.drop_last() =~= Seq::<IfStatsView>::empty());
    assert(one.last() == c);
    assert(rx_growth(prev, one.drop_last()) == 0);
    assert(tx_growth(prev, one.drop_last()) == 0);
}

proof fn lemma_first_named_is(prev: Seq<IfStatsView>, name: Seq<char>, j: int)
    requires
        0 <= j < prev.len(),
        prev[j].name == name,
        forall|i: int| 0 <= i < j ==> (#[trigger] prev[i]).name != name,
    ensures
        first_named(prev, name) == Some(prev[j]),
    decreases j,
{
    if j > 0 {
        let rest = prev.drop_first();
        assert(prev[0].name != name);
        assert forall|i: int| 0 <= i < j - 1 implies (#[trigger] rest[i]).name != name by {
            assert(rest[i] == prev[i + 1]);
        }
        lemma_first_named_is(rest, name, j - 1);
    }
}

proof fn lemma_first_named_none(prev: Seq<IfStatsView>, name: Seq<char>)
    requires
        forall|i: int| 0 <= i < prev.len() ==> (#[trigger] prev[i]).name != name,
    ensures
        first_named(prev, name) is None,
    decreases prev.len(),
{
    if prev.len() > 0 {
        let rest = prev.drop_first();
        assert(prev[0].name != name);
        assert forall|i: int| 0 <= i < rest.len() implies (#[trigger] rest[i]).name != name by {
            assert(rest[i] == prev[i + 1]);
        }
        lemma_first_named_none(rest, name);
    }
}

/// The totals are the sums of the per-interface shares that
/// [`interface_deltas`] reports: the interface's own growth, taken one
/// interface at a time.
pub proof fn lemma_totals_sum_shares(prev: Seq<IfStatsView>, curr: Seq<IfStatsView>)
    ensures
        curr.len() > 0 ==> rx_growth(prev, curr) == rx_growth(prev, curr.drop_last())
            + interface_growth(prev, curr.last()).0,
        curr.len() > 0 ==> tx_growth(prev, curr) == tx_growth(prev, curr.drop_last())
            + interface_growth(prev, curr.last()).1,
        curr.len() == 0 ==> rx_growth(prev, curr) == 0 && tx_growth(prev, curr) == 0,
{
}

} // verus!

//! Netlink framing: message headers (`struct nlmsghdr`) and attributes
//! (`struct nlattr`), as laid out in netlink(7). Integers are in the byte
//! order of the host that produced them.

use crate::wire::{
    bytes_in, field, lemma_bytes_in_value, lemma_radix_pow_values, read_uint, write_uint,
    ByteOrder,
};
use vstd::prelude::*;

verus! {

/// Length of `struct nlmsghdr`.
pub const NLMSG_HDRLEN: usize = 16;

/// Length of `struct nlattr`.
pub const NLA_HDRLEN: usize = 4;

/// Message type of an error or acknowledgement.
pub const NLMSG_ERROR: u16 = 2;

/// Message type that ends a multipart dump.
pub const NLMSG_DONE: u16 = 3;

/// Flag of a request message.
pub const NLM_F_REQUEST: u16 = 1;

/// Flags asking for a dump of all objects (`NLM_F_ROOT | NLM_F_MATCH`).
pub const NLM_F_DUMP: u16 = 0x300;

/// `n` rounded up to a multiple of 4.
pub open spec fn align4(n: int) -> int {
    (n + 3) / 4 * 4
}

/// How far the next record starts after one of length `len`, when `avail`
/// bytes remain: the aligned length, or the end of the buffer if that comes
/// first.
pub open spec fn next_offset(len: int, avail: int) -> int {
    if align4(len) <= avail {
        align4(len)
    } else {
        avail
    }
}

/// A netlink message: the fields of its header and its payload.
pub struct NlMsgView {
    pub msg_type: u16,
    pub flags: u16,
    pub seq: u32,
    pub pid: u32,
    pub payload: Seq<u8>,
}

/// A netlink message as received, with its payload copied out.
pub struct NlMsg {
    pub msg_type: u16,
    pub flags: u16,
    pub seq: u32,
    pub pid: u32,
    pub payload: Vec<u8>,
}

impl View for NlMsg {
    type V = NlMsgView;

    open spec fn view(&self) -> NlMsgView {
        NlMsgView {
            msg_type: self.msg_type,
            flags: self.flags,
            seq: self.seq,
            pid: self.pid,
            payload: self.payload@,
        }
    }
}

/// The message whose header starts `buf`, `len` bytes long in all.
pub open spec fn message_at(order: ByteOrder, buf: Seq<u8>, len: int) -> NlMsgView {
    NlMsgView {
        msg_type: field(order, buf, 4, 2) as u16,
        flags: field(order, buf, 6, 2) as u16,
        seq: field(order, buf, 8, 4) as u32,
        pid: field(order, buf, 12, 4) as u32,
        payload: buf.subrange(16, len),
    }
}

/// The messages packed in a received buffer. Reading stops at the first
/// header that is cut off or whose length field is below the header size
/// or runs past the end of the buffer.
pub open spec fn messages(order: ByteOrder, buf: Seq<u8>) -> Seq<NlMsgView>
    decreases buf.len(),
{
    if buf.len() < 16 {
        seq![]
    } else {
        let len = field(order, buf, 0, 4) as int;
        if len < 16 || len > buf.len() {
            seq![]
        } else {
            seq![message_at(order, buf, len)] + messages(
                order,
                buf.skip(next_offset(len, buf.len() as int)),
            )
        }
    }
}

pub open spec fn msg_views(v: Seq<NlMsg>) -> Seq<NlMsgView> {
    v.map_values(|m: NlMsg| m@)
}

proof fn lemma_messages_unfold(order: ByteOrder, rest: Seq<u8>, len: int, step: int)
    requires
        rest.len() >= 16,
        len == field(order, rest, 0, 4),
        16 <= len <= rest.len(),
        step == next_offset(len, rest.len() as int),
    ensures
        messages(order, rest) == seq![message_at(order, rest, len)] + messages(order, rest.skip(step)),
{
}

proof fn lemma_messages_stop(order: ByteOrder, rest: Seq<u8>)
    requires
        rest.len() < 16 || field(order, rest, 0, 4) < 16 || field(order, rest, 0, 4) > rest.len(),
    ensures
        messages(order, rest) == Seq::<NlMsgView>::empty(),
{
}

/// Splits a received buffer into its netlink messages.
pub fn parse_messages(order: ByteOrder, buf: &[u8]) -> (msgs: Vec<NlMsg>)
    ensures
        msg_views(msgs@) == messages(order, buf@),
{
    let mut out: Vec<NlMsg> = Vec::new();
    let mut pos: usize = 0;
    proof {
        assert(buf@.skip(0) =~= buf@);
        assert(msg_views(out@) =~= Seq::<NlMsgView>::empty());
        assert(msg_views(out@) + messages(order, buf@) =~= messages(order, buf@));
    }
    loop
        invariant_except_break
            pos <= buf.len(),
            msg_views(out@) + messages(order, buf@.skip(pos as int)) == messages(order, buf@),
        ensures
            msg_views(out@) == messages(order, buf@),
        decreases buf.len() - pos,
    {
        let ghost rest = buf@.skip(pos as int);
        let avail = buf.len() - pos;
        if avail < NLMSG_HDRLEN {
            proof {
                lemma_messages_stop(order, rest);
                assert(msg_views(out@) + seq![] =~= msg_views(out@));
            }
            break;
        }
        let len = read_uint(order, buf, pos, 4);
        proof {
            assert(rest.subrange(0, 4) =~= buf@.subrange(pos as int, pos + 4));
            lemma_radix_pow_values();
        }
        if len < 16 || len > avail as u64 {
            proof {
                lemma_messages_stop(order, rest);
                assert(msg_views(out@) + seq![] =~= msg_views(out@));
            }
            break;
        }
        let aligned64: u64 = (len / 4 + if len % 4 == 0 { 0 } else { 1 }) * 4;
        let step: usize = if aligned64 <= avail as u64 { aligned64 as usize } else { avail };
        let len = len as usize;
        let msg_type = read_uint(order, buf, pos + 4, 2) as u16;
        let flags = read_uint(order, buf, pos + 6, 2) as u16;
        let seq = read_uint(order, buf, pos + 8, 4) as u32;
        let pid = read_uint(order, buf, pos + 12, 4) as u32;
        let payload = vstd::slice::slice_to_vec(&buf[pos + 16..pos + len]);
        let msg = NlMsg { msg_type, flags, seq, pid, payload };
        proof {
            assert(rest.subrange(4, 6) =~= buf@.subrange(pos + 4, pos + 6));
            assert(rest.subrange(6, 8) =~= buf@.subrange(pos + 6, pos + 8));
            assert(rest.subrange(8, 12) =~= buf@.subrange(pos + 8, pos + 12));
            assert(rest.subrange(12, 16) =~= buf@.subrange(pos + 12, pos + 16));
            assert(rest.subrange(16, len as int) =~= buf@.subrange(pos + 16, pos + len));
            assert(msg@ == message_at(order, rest, len as int));
            assert(step == next_offset(len as int, rest.len() as int));
            lemma_messages_unfold(order, rest, len as int, step as int);
            assert(rest.skip(step as int) =~= buf@.skip(pos + step));
            assert(msg_views(out@.push(msg)) =~= msg_views(out@).push(msg@));
            assert(msg_views(out@).push(msg@) + messages(order, rest.skip(step as int))
                =~= msg_views(out@) + (seq![msg@] + messages(order, rest.skip(step as int))));
        }
        out.push(msg);
        pos = pos + step;
    }
    out
}

/// Mask that clears the nested and byte-order flags of an attribute type.
pub const NLA_TYPE_MASK: u16 = 0x3fff;

/// A netlink attribute: its type (without flag bits) and its data.
pub struct NlaView {
    pub attr_type: u16,
    pub data: Seq<u8>,
}

/// A netlink attribute with its data copied out.
pub struct Nla {
    pub attr_type: u16,
    pub data: Vec<u8>,
}

impl View for Nla {
    type V = NlaView;

    open spec fn view(&self) -> NlaView {
        NlaView { attr_type: self.attr_type, data: self.data@ }
    }
}

/// The attribute whose header starts `d`, `len` bytes long in all.
pub open spec fn attribute_at(order: ByteOrder, d: Seq<u8>, len: int) -> NlaView {
    NlaView { attr_type: (field(order, d, 2, 2) % 0x4000) as u16, data: d.subrange(4, len) }
}

/// The attributes packed in `d`. Reading stops at the first header that is
/// cut off or whose length field is below the header size or runs past the
/// end of the data.
pub open spec fn attributes(order: ByteOrder, d: Seq<u8>) -> Seq<NlaView>
    decreases d.len(),
{
    if d.len() < 4 {
        seq![]
    } else {
        let len = field(order, d, 0, 2) as int;
        if len < 4 || len > d.len() {
            seq![]
        } else {
            seq![attribute_at(order, d, len)] + attributes(
                order,
                d.skip(next_offset(len, d.len() as int)),
            )
        }
    }
}

pub open spec fn nla_views(v: Seq<Nla>) -> Seq<NlaView> {
    v.map_values(|a: Nla| a@)
}

proof fn lemma_attributes_unfold(order: ByteOrder, rest: Seq<u8>, len: int, step: int)
    requires
        rest.len() >= 4,
        len == field(order, rest, 0, 2),
        4 <= len <= rest.len(),
        step == next_offset(len, rest.len() as int),
    ensures
        attributes(order, rest) == seq![attribute_at(order, rest, len)] + attributes(
            order,
            rest.skip(step),
        ),
{
}

proof fn lemma_attributes_stop(order: ByteOrder, rest: Seq<u8>)
    requires
        rest.len() < 4 || field(order, rest, 0, 2) < 4 || field(order, rest, 0, 2) > rest.len(),
    ensures
        attributes(order, rest) == Seq::<NlaView>::empty(),
{
}

/// Splits attribute data (such as a message payload after its fixed header)
/// into its attributes.
pub fn parse_attributes(order: ByteOrder, d: &[u8]) -> (attrs: Vec<Nla>)
    ensures
        nla_views(attrs@) == attributes(order, d@),
{
    let mut out: Vec<Nla> = Vec::new();
    let mut pos: usize = 0;
    proof {
        assert(d@.skip(0) =~= d@);
        assert(nla_views(out@) =~= Seq::<NlaView>::empty());
        assert(nla_views(out@) + attributes(order, d@) =~= attributes(order, d@));
    }
    loop
        invariant_except_break
            pos <= d.len(),
            nla_views(out@) + attributes(order, d@.skip(pos as int)) == attributes(order, d@),
        ensures
            nla_views(out@) == attributes(order, d@),
        decreases d.len() - pos,
    {
        let ghost rest = d@.skip(pos as int);
        let avail = d.len() - pos;
        if avail < NLA_HDRLEN {
            proof {
                lemma_attributes_stop(order, rest);
                assert(nla_views(out@) + seq![] =~= nla_views(out@));
            }
            break;
        }
        let len = read_uint(order, d, pos, 2);
        proof {
            assert(rest.subrange(0, 2) =~= d@.subrange(pos as int, pos + 2));
            lemma_radix_pow_values();
        }
        if len < 4 || len > avail as u64 {
            proof {
                lemma_attributes_stop(order, rest);
                assert(nla_views(out@) + seq![] =~= nla_views(out@));
            }
            break;
        }
        let aligned64: u64 = (len / 4 + if len % 4 == 0 { 0 } else { 1 }) * 4;
        let step: usize = if aligned64 <= avail as u64 { aligned64 as usize } else { avail };
        let len = len as usize;
        let raw_type = read_uint(order, d, pos + 2, 2);
        let attr_type = (raw_type % 0x4000) as u16;
        let data = vstd::slice::slice_to_vec(&d[pos + 4..pos + len]);
        let attr = Nla { attr_type, data };
        proof {
            assert(rest.subrange(2, 4) =~= d@.subrange(pos + 2, pos + 4));
            assert(rest.subrange(4, len as int) =~= d@.subrange(pos + 4, pos + len));
            assert(attr@ == attribute_at(order, rest, len as int));
            assert(step == next_offset(len as int, rest.len() as int));
            lemma_attributes_unfold(order, rest, len as int, step as int);
            assert(rest.skip(step as int) =~= d@.skip(pos + step));
            assert(nla_views(out@.push(attr)) =~= nla_views(out@).push(attr@));
            assert(nla_views(out@).push(attr@) + attributes(order, rest.skip(step as int))
                =~= nla_views(out@) + (seq![attr@] + attributes(order, rest.skip(step as int))));
        }
        out.push(attr);
        pos = pos + step;
    }
    out
}

/// The bytes of a message with the given header fields and payload; its
/// length field counts the header and the payload.
pub open spec fn message_bytes(
    order: ByteOrder,
    msg_type: u16,
    flags: u16,
    seq: u32,
    pid: u32,
    payload: Seq<u8>,
) -> Seq<u8> {
    bytes_in(order, (16 + payload.len()) as nat, 4) + bytes_in(order, msg_type as nat, 2)
        + bytes_in(order, flags as nat, 2) + bytes_in(order, seq as nat, 4) + bytes_in(
        order,
        pid as nat,
        4,
    ) + payload
}

/// Lays out one netlink message: header, then payload.
pub fn build_message(order: ByteOrder, msg_type: u16, flags: u16, seq: u32, pid: u32, payload: &[u8]) -> (bytes: Vec<u8>)
    requires
        payload.len() + 16 <= u32::MAX,
    ensures
        bytes@ == message_bytes(order, msg_type, flags, seq, pid, payload@),
{
    proof {
        lemma_radix_pow_values();
    }
    let mut out: Vec<u8> = Vec::new();
    write_uint(order, &mut out, (payload.len() + 16) as u64, 4);
    write_uint(order, &mut out, msg_type as u64, 2);
    write_uint(order, &mut out, flags as u64, 2);
    write_uint(order, &mut out, seq as u64, 4);
    write_uint(order, &mut out, pid as u64, 4);
    let mut tail = vstd::slice::slice_to_vec(payload);
    out.append(&mut tail);
    proof {
        assert(out@ =~= message_bytes(order, msg_type, flags, seq, pid, payload@));
    }
    out
}

/// Reading back a laid-out message gives exactly that one message.
pub proof fn lemma_message_roundtrip(
    order: ByteOrder,
    msg_type: u16,
    flags: u16,
    seq: u32,
    pid: u32,
    payload: Seq<u8>,
)
    requires
        payload.len() + 16 <= u32::MAX,
    ensures
        messages(order, message_bytes(order, msg_type, flags, seq, pid, payload)) == seq![
            NlMsgView { msg_type, flags, seq, pid, payload },
        ],
{
    lemma_radix_pow_values();
    let len = (16 + payload.len()) as nat;
    let b0 = bytes_in(order, len, 4);
    let b1 = bytes_in(order, msg_type as nat, 2);
    let b2 = bytes_in(order, flags as nat, 2);
    let b3 = bytes_in(order, seq as nat, 4);
    let b4 = bytes_in(order, pid as nat, 4);
    lemma_bytes_in_value(order, len, 4);
    lemma_bytes_in_value(order, msg_type as nat, 2);
    lemma_bytes_in_value(order, flags as nat, 2);
    lemma_bytes_in_value(order, seq as nat, 4);
    lemma_bytes_in_value(order, pid as nat, 4);
    let b = message_bytes(order, msg_type, flags, seq, pid, payload);
    assert(b == b0 + b1 + b2 + b3 + b4 + payload);
    assert(b.len() == len);
    assert(b.subrange(0, 4) =~= b0);
    assert(b.subrange(4, 6) =~= b1);
    assert(b.subrange(6, 8) =~= b2);
    assert(b.subrange(8, 12) =~= b3);
    assert(b.subrange(12, 16) =~= b4);
    assert(b.subrange(16, len as int) =~= payload);
    let step = next_offset(len as int, b.len() as int);
    assert(step == len);
    lemma_messages_unfold(order, b, len as int, step);
    assert(b.skip(step) =~= Seq::<u8>::empty());
    lemma_messages_stop(order, b.skip(step));
    assert(message_at(order, b, len as int) == NlMsgView { msg_type, flags, seq, pid, payload });
    assert(messages(order, b) =~= seq![NlMsgView { msg_type, flags, seq, pid, payload }]);
}

} // verus!

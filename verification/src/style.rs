//! Which theme colour a value is shown in, and which hardware counters the
//! detail panel lists.

use vstd::prelude::*;

verus! {

/// A role in the colour theme.
#[derive(Clone, Copy, Debug, PartialEq, Eq, Structural)]
pub enum Tone {
    Fg,
    Muted,
    Good,
    Warning,
    Error,
}

/// Colour of a process state letter in the process table: running is good,
/// sleeping and idle are muted, uninterruptible sleep is a warning, zombie
/// and stopped are errors.
pub open spec fn state_tone(state: char) -> Tone {
    match state {
        'R' => Tone::Good,
        'S' | 'I' => Tone::Muted,
        'D' => Tone::Warning,
        'Z' | 'T' => Tone::Error,
        _ => Tone::Fg,
    }
}

/// The colour of a process state letter.
pub fn process_state_tone(state: char) -> (t: Tone)
    ensures
        t == state_tone(state),
{
    match state {
        'R' => Tone::Good,
        'S' | 'I' => Tone::Muted,
        'D' => Tone::Warning,
        'Z' | 'T' => Tone::Error,
        _ => Tone::Fg,
    }
}

/// Whether `p` occurs in `s` as a run of consecutive characters.
pub open spec fn contains_text(s: Seq<char>, p: Seq<char>) -> bool {
    exists|i: int| 0 <= i && i + p.len() <= s.len() && #[trigger] s.subrange(i, i + p.len()) == p
}

/// `str::contains` with a string pattern: whether `pat` occurs in `s`.
#[verifier::external_body]
fn str_contains(s: &str, pat: &str) -> (r: bool)
    ensures
        r == contains_text(s@, pat@),
{
    s.contains(pat)
}

/// Colour of a counter rate line: counters that moved are errors when their
/// name mentions `err` or `drop`, warnings when it mentions `retrans`,
/// `unresponsive` or `impaired`, good otherwise; counters that did not move
/// are muted.
pub open spec fn counter_tone_of(name: Seq<char>, delta: u64) -> Tone {
    let is_error = contains_text(name, "err"@) || contains_text(name, "drop"@);
    let is_warn = contains_text(name, "retrans"@) || contains_text(name, "unresponsive"@)
        || contains_text(name, "impaired"@);
    if delta > 0 && is_error {
        Tone::Error
    } else if delta > 0 && is_warn {
        Tone::Warning
    } else if delta > 0 {
        Tone::Good
    } else {
        Tone::Muted
    }
}

/// The colour of a counter rate line.
pub fn counter_tone(name: &str, delta: u64) -> (t: Tone)
    ensures
        t == counter_tone_of(name@, delta),
{
    let is_error = str_contains(name, "err") || str_contains(name, "drop");
    let is_warn = str_contains(name, "retrans") || str_contains(name, "unresponsive")
        || str_contains(name, "impaired");
    if delta > 0 && is_error {
        Tone::Error
    } else if delta > 0 && is_warn {
        Tone::Warning
    } else if delta > 0 {
        Tone::Good
    } else {
        Tone::Muted
    }
}

/// The hardware counters the detail panel lists, in the order it lists them.
pub open spec fn detail_counter_names() -> Seq<&'static str> {
    seq![
        "send_bytes",
        "send_wrs",
        "recv_bytes",
        "recv_wrs",
        "rdma_write_bytes",
        "rdma_write_wrs",
        "rdma_write_wr_err",
        "rdma_write_recv_bytes",
        "rdma_read_bytes",
        "rdma_read_wrs",
        "rdma_read_wr_err",
        "rdma_read_resp_bytes",
        "retrans_bytes",
        "retrans_pkts",
        "retrans_timeout_events",
        "unresponsive_remote_events",
        "impaired_remote_conn_events",
    ]
}

/// Whether the detail panel lists the counter with this name.
pub fn is_detail_counter(name: &str) -> (r: bool)
    ensures
        r == exists|i: int|
            0 <= i < detail_counter_names().len() && (#[trigger] detail_counter_names()[i])@
                == name@,
{
    let names: Vec<&'static str> = vec![
        "send_bytes",
        "send_wrs",
        "recv_bytes",
        "recv_wrs",
        "rdma_write_bytes",
        "rdma_write_wrs",
        "rdma_write_wr_err",
        "rdma_write_recv_bytes",
        "rdma_read_bytes",
        "rdma_read_wrs",
        "rdma_read_wr_err",
        "rdma_read_resp_bytes",
        "retrans_bytes",
        "retrans_pkts",
        "retrans_timeout_events",
        "unresponsive_remote_events",
        "impaired_remote_conn_events",
    ];
    proof {
        assert(names@ =~= detail_counter_names());
    }
    let wanted = name.to_owned();
    let mut i: usize = 0;
    while i < names.len()
        invariant
            i <= names@.len(),
            names@ == detail_counter_names(),
            wanted@ == name@,
            forall|k: int| 0 <= k < i ==> (#[trigger] detail_counter_names()[k])@ != name@,
        decreases names.len() - i,
    {
        let candidate = names[i].to_owned();
        if candidate == wanted {
            proof {
                assert(detail_counter_names()[i as int]@ == name@);
            }
            return true;
        }
        i = i + 1;
    }
    false
}

/// How a counter line is coloured, by its name and how much it moved:
/// - a counter that did not move is muted, whatever its name;
/// - a moved counter whose name mentions `err` or `drop` is an error;
/// - else a moved counter whose name mentions `retrans`, `unresponsive` or
///   `impaired` is a warning;
/// - every other moved counter is good.
pub proof fn lemma_counter_tone_rules(name: Seq<char>, delta: u64)
    ensures
        delta == 0 ==> counter_tone_of(name, delta) == Tone::Muted,
        delta > 0 && (contains_text(name, "err"@) || contains_text(name, "drop"@))
            ==> counter_tone_of(name, delta) == Tone::Error,
        delta > 0 && !contains_text(name, "err"@) && !contains_text(name, "drop"@) && (contains_text(
            name,
            "retrans"@,
        ) || contains_text(name, "unresponsive"@) || contains_text(name, "impaired"@))
            ==> counter_tone_of(name, delta) == Tone::Warning,
        delta > 0 && !contains_text(name, "err"@) && !contains_text(name, "drop"@)
            && !contains_text(name, "retrans"@) && !contains_text(name, "unresponsive"@)
            && !contains_text(name, "impaired"@) ==> counter_tone_of(name, delta) == Tone::Good,
{
}

/// Whether the detail panel lists the counter with this name.
pub open spec fn listed_in_detail(name: Seq<char>) -> bool {
    exists|i: int| 0 <= i < detail_counter_names().len() && (#[trigger] detail_counter_names()[i])@ == name
}

/// The detail panel lists the send and receive counters, the RDMA write and
/// read counters (bytes, work requests and their errors), and the
/// retransmission and remote health counters, every one of these.
pub proof fn lemma_detail_counters_listed()
    ensures
        listed_in_detail("send_bytes"@),
        listed_in_detail("send_wrs"@),
        listed_in_detail("recv_bytes"@),
        listed_in_detail("recv_wrs"@),
        listed_in_detail("rdma_write_bytes"@),
        listed_in_detail("rdma_write_wrs"@),
        listed_in_detail("rdma_write_wr_err"@),
        listed_in_detail("rdma_write_recv_bytes"@),
        listed_in_detail("rdma_read_bytes"@),
        listed_in_detail("rdma_read_wrs"@),
        listed_in_detail("rdma_read_wr_err"@),
        listed_in_detail("rdma_read_resp_bytes"@),
        listed_in_detail("retrans_bytes"@),
        listed_in_detail("retrans_pkts"@),
        listed_in_detail("retrans_timeout_events"@),
        listed_in_detail("unresponsive_remote_events"@),
        listed_in_detail("impaired_remote_conn_events"@),
        detail_counter_names().len() == 17,
{
    let l = detail_counter_names();
    assert(l[0]@ == "send_bytes"@);
    assert(l[1]@ == "send_wrs"@);
    assert(l[2]@ == "recv_bytes"@);
    assert(l[3]@ == "recv_wrs"@);
    assert(l[4]@ == "rdma_write_bytes"@);
    assert(l[5]@ == "rdma_write_wrs"@);
    assert(l[6]@ == "rdma_write_wr_err"@);
    assert(l[7]@ == "rdma_write_recv_bytes"@);
    assert(l[8]@ == "rdma_read_bytes"@);
    assert(l[9]@ == "rdma_read_wrs"@);
    assert(l[10]@ == "rdma_read_wr_err"@);
    assert(l[11]@ == "rdma_read_resp_bytes"@);
    assert(l[12]@ == "retrans_bytes"@);
    assert(l[13]@ == "retrans_pkts"@);
    assert(l[14]@ == "retrans_timeout_events"@);
    assert(l[15]@ == "unresponsive_remote_events"@);
    assert(l[16]@ == "impaired_remote_conn_events"@);
}

} // verus!

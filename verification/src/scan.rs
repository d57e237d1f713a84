//! Assembly of the final report: the merged probe results sorted by address
//! and written out as fixed-width columns.

use vstd::prelude::*;

use crate::addr::Ipv4Address;
use crate::nbt_packet::NetBiosPacket;
use crate::nbt_packet::spec_group_and_name;
use crate::nbt_packet::spec_mac;
use crate::text::dec_chars;
use crate::text::pad_to;
use crate::text::push_decimal;
use crate::text::push_padded;

verus! {

broadcast use vstd::seq_lib::group_to_multiset_ensures;

/// Sorts probe results ascending by the 32-bit value of their address.
/// The output is a permutation of the input: nothing is lost, nothing is
/// duplicated, nothing is invented.
pub fn sort_by_ip(results: Vec<NetBiosPacket>) -> (sorted: Vec<NetBiosPacket>)
    ensures
        sorted@.len() == results@.len(),
        sorted@.to_multiset() == results@.to_multiset(),
        forall|i: int, j: int|
            0 <= i < j < sorted@.len() ==> sorted@[i].ip.value() <= sorted@[j].ip.value(),
        forall|i: int| 0 <= i < sorted@.len() ==> results@.contains(#[trigger] sorted@[i]),
{
    let mut rest = results;
    let mut out: Vec<NetBiosPacket> = Vec::new();
    while rest.len() > 0
        invariant
            out@.len() + rest@.len() == results@.len(),
            out@.to_multiset().add(rest@.to_multiset()) == results@.to_multiset(),
            forall|i: int, j: int|
                0 <= i < j < out@.len() ==> out@[i].ip.value() <= out@[j].ip.value(),
            forall|i: int, j: int|
                0 <= i < out@.len() && 0 <= j < rest@.len() ==> out@[i].ip.value()
                    <= rest@[j].ip.value(),
            forall|i: int| 0 <= i < out@.len() ==> results@.contains(#[trigger] out@[i]),
            forall|j: int| 0 <= j < rest@.len() ==> results@.contains(#[trigger] rest@[j]),
        decreases rest@.len(),
    {
        let mut m: usize = 0;
        let mut k: usize = 1;
        while k < rest.len()
            invariant
                rest@.len() > 0,
                0 <= m < k <= rest@.len(),
                forall|j: int| 0 <= j < k ==> rest@[m as int].ip.value() <= rest@[j].ip.value(),
            decreases rest@.len() - k,
        {
            if rest[k].ip.to_u32() < rest[m].ip.to_u32() {
                m = k;
            }
            k += 1;
        }
        let ghost rest_before = rest@;
        let ghost out_before = out@;
        let x = rest.remove(m);
        out.push(x);
        proof {
            rest_before.remove_ensures(m as int);
            assert(rest_before.contains(x)) by {
                assert(rest_before[m as int] == x);
            }
            assert(rest_before.to_multiset().count(x) > 0);
            assert(out@.to_multiset() == out_before.to_multiset().insert(x));
            assert(rest@.to_multiset() == rest_before.to_multiset().remove(x));
            assert(out@.to_multiset().add(rest@.to_multiset()) =~= out_before.to_multiset().add(
                rest_before.to_multiset(),
            ));
            assert forall|i: int, j: int|
                0 <= i < out@.len() && 0 <= j < rest@.len() implies out@[i].ip.value()
                <= rest@[j].ip.value() by {
                if j < m {
                    assert(rest@[j] == rest_before[j]);
                } else {
                    assert(rest@[j] == rest_before[j + 1]);
                }
                if i < out_before.len() {
                    assert(out@[i] == out_before[i]);
                } else {
                    assert(out@[i] == x);
                }
            }
            assert forall|j: int| 0 <= j < rest@.len() implies results@.contains(
                #[trigger] rest@[j],
            ) by {
                if j < m {
                    assert(rest@[j] == rest_before[j]);
                } else {
                    assert(rest@[j] == rest_before[j + 1]);
                }
            }
        }
    }
    out
}

/// What one report line renders to: the address, the group and name, and
/// the MAC address, each padded on the right into its column.
pub open spec fn spec_report_line(p: NetBiosPacket) -> Seq<char> {
    pad_to(p.ip.spec_chars(), 16) + pad_to(spec_group_and_name(p.data@), 32) + pad_to(
        spec_mac(p.data@, p.length as int),
        15,
    )
}

/// Writes one probe result as a report line: the address in a 16-column
/// field, group and name in a 32-column field, the MAC address in a
/// 15-column field.
pub fn format_result_line(p: &NetBiosPacket) -> (r: String)
    requires
        p.wf(),
    ensures
        r@ == spec_report_line(*p),
{
    let mut out = String::new();
    let ip = p.ip.ip_string();
    push_padded(&mut out, ip.as_str(), 16);
    let group_and_name = p.group_and_name();
    push_padded(&mut out, group_and_name.as_str(), 32);
    let mac = p.mac_address();
    push_padded(&mut out, mac.as_str(), 15);
    assert(out@ =~= spec_report_line(*p));
    out
}

/// What the scan banner renders to.
pub open spec fn spec_banner(ips: Seq<Ipv4Address>) -> Seq<char> {
    "Scanning from "@ + ips.first().spec_chars() + " to "@ + ips.last().spec_chars() + " ("@
        + dec_chars(ips.len() as int) + " total)"@
}

/// Writes the line announcing the scan: the first address, the last, and
/// how many in all.  Meaningful only for a nonempty range.
pub fn scan_banner(ips: &Vec<Ipv4Address>) -> (r: String)
    requires
        ips@.len() >= 1,
    ensures
        r@ == spec_banner(ips@),
{
    let mut out = String::from_str("Scanning from ");
    let first = ips[0].ip_string();
    out.append(first.as_str());
    out.append(" to ");
    let last = ips[ips.len() - 1].ip_string();
    out.append(last.as_str());
    out.append(" (");
    push_decimal(&mut out, ips.len());
    out.append(" total)");
    assert(out@ =~= spec_banner(ips@));
    out
}

} // verus!

//! Decoding of a raw NetBIOS name-service response buffer.
//!
//! A response carries a table of 18-byte name entries starting at offset 57,
//! preceded at offset 56 by the number of entries, and followed by the
//! adapter's 6-byte MAC address.  The decoder extracts the host name, the
//! workgroup and the MAC address as strings.  Bytes that are not printable
//! ASCII where text is expected never raise an error: the name falls back to
//! `N/A` and the group to `-`.

use vstd::prelude::*;

use crate::addr::Ipv4Address;
use crate::text::push_char;

verus! {

/// Offset at which the first name-table entry begins; the byte just before
/// it holds the number of entries.
pub const RESPONSE_BASE_LEN: usize = 57;

/// Length of the name part of a table entry.
pub const RESPONSE_NAME_LEN: usize = 15;

/// Length of one whole table entry: name, type byte, two flag bytes.
pub const RESPONSE_NAME_BLOCK_LEN: usize = 18;

/// ASCII space.
pub const SPACE: u8 = 32;

/// One NetBIOS name-service response: the address it came from, the raw
/// datagram bytes, and how many of them were received.
#[derive(Clone, Copy)]
pub struct NetBiosPacket {
    pub ip: Ipv4Address,
    pub data: [u8; 1024],
    pub length: usize,
}

/// `b` is printable ASCII (space through tilde).
pub open spec fn is_printable(b: u8) -> bool {
    SPACE <= b <= 0x7E
}

/// Every byte of `s` is printable ASCII.
pub open spec fn all_printable(s: Seq<u8>) -> bool {
    forall|i: int| 0 <= i < s.len() ==> is_printable(#[trigger] s[i])
}

/// `s` without its trailing spaces.
pub open spec fn trim_end(s: Seq<u8>) -> Seq<u8>
    decreases s.len(),
{
    if s.len() > 0 && s.last() == SPACE {
        trim_end(s.drop_last())
    } else {
        s
    }
}

/// `s` without its leading spaces.
pub open spec fn trim_start(s: Seq<u8>) -> Seq<u8>
    decreases s.len(),
{
    if s.len() > 0 && s[0] == SPACE {
        trim_start(s.drop_first())
    } else {
        s
    }
}

/// `s` without leading and trailing spaces.
pub open spec fn trimmed(s: Seq<u8>) -> Seq<u8> {
    trim_start(trim_end(s))
}

/// The bytes of `s` read as characters.
pub open spec fn ascii_chars(s: Seq<u8>) -> Seq<char> {
    s.map_values(|b: u8| b as char)
}

/// Characterisation of `trim_end`: removing the spaces after the last
/// non-space byte keeps exactly the bytes up to it.
proof fn lemma_trim_end_at(s: Seq<u8>, h: int)
    requires
        0 <= h < s.len(),
        s[h] != SPACE,
        forall|j: int| h < j < s.len() ==> s[j] == SPACE,
    ensures
        trim_end(s) == s.take(h + 1),
    decreases s.len(),
{
    if s.last() == SPACE {
        lemma_trim_end_at(s.drop_last(), h);
        assert(s.drop_last().take(h + 1) =~= s.take(h + 1));
    } else {
        assert(s.take(h + 1) =~= s);
    }
}

/// A string of spaces alone trims to nothing.
proof fn lemma_trim_end_all_spaces(s: Seq<u8>)
    requires
        forall|j: int| 0 <= j < s.len() ==> s[j] == SPACE,
    ensures
        trim_end(s) == Seq::<u8>::empty(),
    decreases s.len(),
{
    if s.len() > 0 {
        lemma_trim_end_all_spaces(s.drop_last());
    } else {
        assert(s =~= Seq::<u8>::empty());
    }
}

/// Characterisation of `trim_start`: removing the spaces before the first
/// non-space byte keeps exactly the bytes from it on.
proof fn lemma_trim_start_at(s: Seq<u8>, l: int)
    requires
        0 <= l < s.len(),
        s[l] != SPACE,
        forall|j: int| 0 <= j < l ==> s[j] == SPACE,
    ensures
        trim_start(s) == s.skip(l),
    decreases s.len(),
{
    if s[0] == SPACE {
        lemma_trim_start_at(s.drop_first(), l - 1);
        assert(s.drop_first().skip(l - 1) =~= s.skip(l));
    } else {
        assert(s.skip(0) =~= s);
    }
}

/// Reads a byte slice as a space-trimmed printable-ASCII string.  Returns
/// the trimmed text exactly when every byte is printable.
fn decode_printable(s: &[u8]) -> (r: Option<String>)
    ensures
        r is Some <==> all_printable(s@),
        r matches Some(t) ==> t@ == ascii_chars(trimmed(s@)),
{
    let n = s.len();
    let mut i: usize = 0;
    while i < n
        invariant
            n == s@.len(),
            0 <= i <= n,
            forall|j: int| 0 <= j < i ==> is_printable(#[trigger] s@[j]),
        decreases n - i,
    {
        let b = s[i];
        if b < SPACE || b > 0x7E {
            assert(!is_printable(s@[i as int]));
            return None;
        }
        i += 1;
    }
    // Find the first and last non-space bytes.
    let mut lo: usize = 0;
    while lo < n && s[lo] == SPACE
        invariant
            n == s@.len(),
            0 <= lo <= n,
            forall|j: int| 0 <= j < lo ==> s@[j] == SPACE,
        decreases n - lo,
    {
        lo += 1;
    }
    if lo == n {
        proof {
            lemma_trim_end_all_spaces(s@);
        }
        assert(trimmed(s@) =~= Seq::<u8>::empty());
        assert(ascii_chars(trimmed(s@)) =~= Seq::<char>::empty());
        return Some(String::new());
    }
    let mut hi: usize = n;
    while hi > lo + 1 && s[hi - 1] == SPACE
        invariant
            n == s@.len(),
            lo < hi <= n,
            forall|j: int| hi <= j < n ==> s@[j] == SPACE,
        decreases hi,
    {
        hi -= 1;
    }
    proof {
        assert(s@[hi - 1] != SPACE);
        lemma_trim_end_at(s@, hi - 1);
        let t = s@.take(hi as int);
        assert(t[lo as int] == s@[lo as int]);
        lemma_trim_start_at(t, lo as int);
        assert(trimmed(s@) == s@.take(hi as int).skip(lo as int));
        assert(s@.take(hi as int).skip(lo as int) =~= s@.subrange(lo as int, hi as int));
    }
    let mut out = String::new();
    let mut i: usize = lo;
    while i < hi
        invariant
            n == s@.len(),
            lo <= i <= hi <= n,
            out@ == ascii_chars(s@.subrange(lo as int, i as int)),
        decreases hi - i,
    {
        let b = s[i];
        push_char(&mut out, b as char);
        proof {
            assert(ascii_chars(s@.subrange(lo as int, i + 1)) =~= ascii_chars(
                s@.subrange(lo as int, i as int),
            ).push(s@[i as int] as char));
        }
        i += 1;
    }
    Some(out)
}

/// The character for one hex digit, upper case.
pub open spec fn hex_digit(n: u8) -> char
    recommends
        n < 16,
{
    if n < 10 {
        (n + 48) as char
    } else {
        (n + 55) as char
    }
}

/// The two hex characters of one byte.
pub open spec fn hex_pair(b: u8) -> Seq<char> {
    seq![hex_digit(b / 16), hex_digit(b % 16)]
}

/// Appends the two hex characters of `b`.
fn push_hex_pair(s: &mut String, b: u8)
    ensures
        final(s)@ == old(s)@ + hex_pair(b),
{
    let hi = b / 16;
    let lo = b % 16;
    let c1 = if hi < 10 {
        (hi + 48) as char
    } else {
        (hi + 55) as char
    };
    let c2 = if lo < 10 {
        (lo + 48) as char
    } else {
        (lo + 55) as char
    };
    push_char(s, c1);
    push_char(s, c2);
    assert(s@ =~= old(s)@ + hex_pair(b));
}

/// The 15 name bytes of the first table entry.
pub open spec fn name_field(data: Seq<u8>) -> Seq<u8> {
    data.subrange(57, 72)
}

/// The 18 bytes that follow the first entry's name slot.
pub open spec fn group_field(data: Seq<u8>) -> Seq<u8> {
    data.subrange(72, 90)
}

/// What the name decodes to: the trimmed text of the name field, or `N/A`
/// when a byte of it is not printable.
pub open spec fn spec_name(data: Seq<u8>) -> Seq<char> {
    if all_printable(name_field(data)) {
        ascii_chars(trimmed(name_field(data)))
    } else {
        "N/A"@
    }
}

/// What the group decodes to: the trimmed text of the group field, or `-`
/// when a byte of it is not printable.
pub open spec fn spec_group(data: Seq<u8>) -> Seq<char> {
    if all_printable(group_field(data)) {
        ascii_chars(trimmed(group_field(data)))
    } else {
        "-"@
    }
}

/// The group and the name joined by a backslash.
pub open spec fn spec_group_and_name(data: Seq<u8>) -> Seq<char> {
    spec_group(data) + "\\"@ + spec_name(data)
}

/// The offset of the MAC address: right after the `data[56]` table entries.
pub open spec fn mac_offset(data: Seq<u8>) -> int {
    57 + 18 * (data[56] as int)
}

/// What the MAC address renders to: six colon-separated upper-case hex
/// pairs, or `N/A` when the computed range exceeds the received length.
pub open spec fn spec_mac(data: Seq<u8>, length: int) -> Seq<char> {
    let off = mac_offset(data);
    if off + 6 <= length {
        hex_pair(data[off]) + seq![':'] + hex_pair(data[off + 1]) + seq![':'] + hex_pair(
            data[off + 2],
        ) + seq![':'] + hex_pair(data[off + 3]) + seq![':'] + hex_pair(data[off + 4]) + seq![':']
            + hex_pair(data[off + 5])
    } else {
        "N/A"@
    }
}

/// The rendering of one byte inside the hex dump.
pub open spec fn dump_unit(b: u8) -> Seq<char> {
    "0x"@ + hex_pair(b) + ", "@
}

/// The renderings of all bytes of `s`, in order.
pub open spec fn dump_bytes(s: Seq<u8>) -> Seq<char>
    decreases s.len(),
{
    if s.len() == 0 {
        Seq::empty()
    } else {
        dump_bytes(s.drop_last()) + dump_unit(s.last())
    }
}

/// What the hex dump renders to: the received bytes, bracketed.
pub open spec fn spec_hex_dump(data: Seq<u8>, length: int) -> Seq<char> {
    "["@ + dump_bytes(data.take(length)) + "]"@
}

impl NetBiosPacket {
    /// The buffer is fully allocated and the received length lies within it.
    pub open spec fn wf(self) -> bool {
        self.length <= 1024
    }

    /// Builds a packet from the probed address, the receive buffer and the
    /// number of bytes received.
    pub fn from(ip: Ipv4Address, data: [u8; 1024], length: usize) -> (p: NetBiosPacket)
        requires
            length <= 1024,
        ensures
            p.ip == ip && p.data@ == data@ && p.length == length && p.wf(),
    {
        NetBiosPacket { ip, data, length }
    }

    /// The host name: the first table entry's name bytes, trimmed; `N/A`
    /// when they are not printable text.
    pub fn name(&self) -> (r: String)
        ensures
            r@ == spec_name(self.data@),
    {
        let d: &[u8] = self.data.as_slice();
        let field = vstd::slice::slice_subrange(d, RESPONSE_BASE_LEN, RESPONSE_BASE_LEN
            + RESPONSE_NAME_LEN);
        match decode_printable(field) {
            Some(t) => t,
            None => String::from_str("N/A"),
        }
    }

    /// The workgroup: the bytes after the first entry's name slot, trimmed;
    /// `-` when they are not printable text.
    pub fn group(&self) -> (r: String)
        ensures
            r@ == spec_group(self.data@),
    {
        let d: &[u8] = self.data.as_slice();
        let offset = RESPONSE_BASE_LEN + RESPONSE_NAME_LEN;
        let field = vstd::slice::slice_subrange(d, offset, offset + RESPONSE_NAME_BLOCK_LEN);
        match decode_printable(field) {
            Some(t) => t,
            None => String::from_str("-"),
        }
    }

    /// The MAC address: the six bytes after the whole name table, rendered
    /// as colon-separated upper-case hex pairs.  When the computed range
    /// lies beyond the received length — a truncated or inconsistent
    /// datagram — the rendering is suppressed and `N/A` returned instead of
    /// reading bytes that were never received.
    pub fn mac_address(&self) -> (r: String)
        requires
            self.wf(),
        ensures
            r@ == spec_mac(self.data@, self.length as int),
    {
        let count = self.data[56] as usize;
        let offset = RESPONSE_BASE_LEN + RESPONSE_NAME_BLOCK_LEN * count;
        if offset + 6 <= self.length {
            let mut out = String::new();
            push_hex_pair(&mut out, self.data[offset]);
            push_char(&mut out, ':');
            push_hex_pair(&mut out, self.data[offset + 1]);
            push_char(&mut out, ':');
            push_hex_pair(&mut out, self.data[offset + 2]);
            push_char(&mut out, ':');
            push_hex_pair(&mut out, self.data[offset + 3]);
            push_char(&mut out, ':');
            push_hex_pair(&mut out, self.data[offset + 4]);
            push_char(&mut out, ':');
            push_hex_pair(&mut out, self.data[offset + 5]);
            assert(out@ =~= spec_mac(self.data@, self.length as int));
            out
        } else {
            String::from_str("N/A")
        }
    }

    /// The bytes received, written out as a bracketed list of hex values.
    pub fn hex_dump(&self) -> (r: String)
        requires
            self.wf(),
        ensures
            r@ == spec_hex_dump(self.data@, self.length as int),
    {
        let mut out = String::from_str("[");
        let mut i: usize = 0;
        while i < self.length
            invariant
                self.wf(),
                0 <= i <= self.length,
                self.data@.len() == 1024,
                out@ == "["@ + dump_bytes(self.data@.take(i as int)),
            decreases self.length - i,
        {
            out.append("0x");
            push_hex_pair(&mut out, self.data[i]);
            out.append(", ");
            proof {
                let t = self.data@.take(i + 1);
                assert(t.drop_last() =~= self.data@.take(i as int));
                assert(t.last() == self.data@[i as int]);
                assert(out@ =~= "["@ + dump_bytes(self.data@.take(i + 1)));
            }
            i += 1;
        }
        out.append("]");
        out
    }

    /// The group and the name joined by a backslash, as one report column.
    pub fn group_and_name(&self) -> (r: String)
        ensures
            r@ == spec_group_and_name(self.data@),
    {
        let mut out = self.group();
        out.append("\\");
        let name = self.name();
        out.append(name.as_str());
        out
    }
}

} // verus!

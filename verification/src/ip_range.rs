//! Expansion of a textual address specification into an ordered sequence of
//! host addresses.
//!
//! A specification is one of three shapes: a single dotted-quad literal
//! `A.B.C.D`, a dash range `A.B.C.D-E` over the last octet, or a CIDR block
//! `A.B.C.D/N`.  The whole grammar and the expansion itself are stated as
//! spec functions over the byte sequence of the input, and [`parse_ip_string`]
//! is proved to return exactly that expansion.

use vstd::prelude::*;
use vstd::string::StringSliceAdditionalSpecFns;

use crate::addr::Ipv4Address;

verus! {

/// ASCII `-`.
pub const DASH: u8 = 45;

/// ASCII `.`.
pub const DOT: u8 = 46;

/// ASCII `/`.
pub const SLASH: u8 = 47;

/// ASCII `0`.
pub const DIGIT_ZERO: u8 = 48;

/// ASCII `9`.
pub const DIGIT_NINE: u8 = 57;

/// Why an address specification was rejected.
#[derive(Clone, Copy, Debug, PartialEq, Eq, Structural)]
pub enum IpParserError {
    /// The CIDR mask was not a decimal number between 15 and 29.
    CidrNumberError,
    /// The base address was not a well-formed dotted-quad IPv4 literal.
    BaseIpError,
    /// The ending octet of a dash range was not a decimal number of octet size.
    IpRangeError,
}

/// The result type of the expander.
pub type IpParserResult<T, E> = Result<T, E>;

impl IpParserError {
    /// A human-readable description of the failure.
    pub fn description(&self) -> (r: &'static str)
        ensures
            self is CidrNumberError ==> r@ == "The provided CIDR number cannot be greater than 32, and not less than 15"@,
            self is BaseIpError ==> r@ == "The base IP provided was not a valid IP address"@,
            self is IpRangeError ==> r@ == "The ending octet of the range was not a number between 0 and 255"@,
    {
        match *self {
            IpParserError::CidrNumberError => {
                "The provided CIDR number cannot be greater than 32, and not less than 15"
            },
            IpParserError::BaseIpError => {
                "The base IP provided was not a valid IP address"
            },
            IpParserError::IpRangeError => {
                "The ending octet of the range was not a number between 0 and 255"
            },
        }
    }
}

/// `b` is an ASCII decimal digit.
pub open spec fn is_digit(b: u8) -> bool {
    DIGIT_ZERO <= b <= DIGIT_NINE
}

/// Every byte of `s` is an ASCII decimal digit.
pub open spec fn all_digits(s: Seq<u8>) -> bool {
    forall|i: int| 0 <= i < s.len() ==> is_digit(#[trigger] s[i])
}

/// The number that the digit string `s` denotes in decimal.
pub open spec fn token_value(s: Seq<u8>) -> int
    decreases s.len(),
{
    if s.len() == 0 {
        0
    } else {
        token_value(s.drop_last()) * 10 + (s.last() - DIGIT_ZERO)
    }
}

/// `s` is a decimal number that fits in one octet: nonempty, all digits,
/// value at most 255.  Leading zeros are allowed, as in `007`.
pub open spec fn is_u8_token(s: Seq<u8>) -> bool {
    s.len() >= 1 && all_digits(s) && token_value(s) <= 255
}

/// `s` is one octet of a dotted-quad literal: a decimal number up to 255
/// written without leading zeros.
pub open spec fn is_ip_octet(s: Seq<u8>) -> bool {
    s.len() >= 1 && all_digits(s) && (s.len() == 1 || s[0] != DIGIT_ZERO)
        && token_value(s) <= 255
}

/// The index of the first occurrence of `sep` in `s`, or -1 if none.
pub open spec fn find(s: Seq<u8>, sep: u8) -> int
    decreases s.len(),
{
    if s.len() == 0 {
        -1
    } else if s[0] == sep {
        0
    } else if find(s.drop_first(), sep) == -1 {
        -1
    } else {
        find(s.drop_first(), sep) + 1
    }
}

/// What `find` returns: either -1 and no byte of `s` is `sep`, or the least
/// index holding `sep`.
proof fn lemma_find_spec(s: Seq<u8>, sep: u8)
    ensures
        find(s, sep) == -1 ==> forall|i: int| 0 <= i < s.len() ==> s[i] != sep,
        find(s, sep) != -1 ==> {
            &&& 0 <= find(s, sep) < s.len()
            &&& s[find(s, sep)] == sep
            &&& forall|i: int| 0 <= i < find(s, sep) ==> s[i] != sep
        },
    decreases s.len(),
{
    if s.len() > 0 && s[0] != sep {
        let t = s.drop_first();
        lemma_find_spec(t, sep);
        assert(forall|i: int| 0 <= i < t.len() ==> #[trigger] t[i] == s[i + 1]);
        if find(t, sep) == -1 {
            assert forall|i: int| 0 <= i < s.len() implies s[i] != sep by {
                if i > 0 {
                    assert(t[i - 1] != sep);
                }
            }
        } else {
            assert(s[find(s, sep)] == t[find(t, sep)]);
            assert forall|i: int| 0 <= i < find(s, sep) implies s[i] != sep by {
                if i > 0 {
                    assert(t[i - 1] != sep);
                }
            }
        }
    }
}

/// `find` is determined by its characterisation: if `i` is an occurrence of
/// `sep` with none before it, then `find` returns `i`.
proof fn lemma_find_is_first(s: Seq<u8>, sep: u8, i: int)
    requires
        0 <= i < s.len(),
        s[i] == sep,
        forall|j: int| 0 <= j < i ==> s[j] != sep,
    ensures
        find(s, sep) == i,
{
    lemma_find_spec(s, sep);
    if find(s, sep) == -1 {
        assert(s[i] != sep);
    } else {
        let f = find(s, sep);
        if f < i {
            assert(s[f] != sep);
        }
        if i < f {
            assert(s[i] != sep);
        }
    }
}

/// A digit string denotes a number that is not negative.
proof fn lemma_token_value_nonneg(s: Seq<u8>)
    requires
        all_digits(s),
    ensures
        token_value(s) >= 0,
    decreases s.len(),
{
    if s.len() > 0 {
        assert(is_digit(s[s.len() - 1]));
        assert(all_digits(s.drop_last()));
        lemma_token_value_nonneg(s.drop_last());
    }
}

/// Extending a digit string to the right never shrinks its value.
proof fn lemma_token_value_take_monotonic(s: Seq<u8>, i: int, j: int)
    requires
        all_digits(s),
        0 <= i <= j <= s.len(),
    ensures
        token_value(s.take(i)) <= token_value(s.take(j)),
    decreases j - i,
{
    if i < j {
        lemma_token_value_take_monotonic(s, i, j - 1);
        let t = s.take(j);
        assert(t.drop_last() =~= s.take(j - 1));
        assert(all_digits(t.drop_last()));
        lemma_token_value_nonneg(t.drop_last());
        assert(is_digit(t.last()));
    }
}

/// The first occurrence of `sep` in `s`, scanning from the left.
fn find_byte(s: &[u8], sep: u8) -> (r: Option<usize>)
    ensures
        match r {
            Some(i) => i < s@.len() && find(s@, sep) == i,
            None => find(s@, sep) == -1,
        },
{
    let mut i: usize = 0;
    while i < s.len()
        invariant
            i <= s@.len(),
            forall|j: int| 0 <= j < i ==> s@[j] != sep,
        decreases s@.len() - i,
    {
        if s[i] == sep {
            proof {
                lemma_find_is_first(s@, sep, i as int);
            }
            return Some(i);
        }
        i += 1;
    }
    proof {
        lemma_find_spec(s@, sep);
    }
    None
}

/// Reads `s` as a decimal number of octet size.  Returns the value exactly
/// when `s` is nonempty, all digits, and denotes at most 255; leading zeros
/// are accepted.
fn parse_u8_token(s: &[u8]) -> (r: Option<u8>)
    ensures
        r is Some <==> is_u8_token(s@),
        r matches Some(v) ==> v == token_value(s@),
{
    if s.len() == 0 {
        return None;
    }
    let mut acc: u32 = 0;
    let mut i: usize = 0;
    while i < s.len()
        invariant
            0 < s@.len(),
            0 <= i <= s@.len(),
            all_digits(s@.take(i as int)),
            acc == token_value(s@.take(i as int)),
            acc <= 255,
        decreases s@.len() - i,
    {
        let b = s[i];
        if b < DIGIT_ZERO || b > DIGIT_NINE {
            assert(!is_digit(s@[i as int]));
            return None;
        }
        acc = acc * 10 + ((b - DIGIT_ZERO) as u32);
        proof {
            let t = s@.take(i + 1);
            assert(t.drop_last() =~= s@.take(i as int));
            assert(t.last() == s@[i as int]);
            assert(all_digits(t)) by {
                assert(forall|j: int| 0 <= j < t.len() ==> t[j] == s@.take(i as int + 1)[j]);
            }
        }
        i += 1;
        if acc > 255 {
            proof {
                if all_digits(s@) {
                    lemma_token_value_take_monotonic(s@, i as int, s@.len() as int);
                    assert(s@.take(s@.len() as int) =~= s@);
                }
            }
            return None;
        }
    }
    proof {
        assert(s@.take(s@.len() as int) =~= s@);
    }
    Some(acc as u8)
}

/// Reads `s` as one octet of a dotted-quad literal: as `parse_u8_token`, but
/// leading zeros are rejected.
fn parse_ip_octet(s: &[u8]) -> (r: Option<u8>)
    ensures
        r is Some <==> is_ip_octet(s@),
        r matches Some(v) ==> v == token_value(s@),
{
    if s.len() > 1 && s[0] == DIGIT_ZERO {
        return None;
    }
    parse_u8_token(s)
}

/// The segments of `s` between occurrences of `.`, in order.  A string with
/// no dot is one segment; each dot closes a segment, so `n` dots give
/// `n + 1` segments, empty ones included.
pub open spec fn dotted_parts(s: Seq<u8>) -> Seq<Seq<u8>>
    decreases s.len(),
{
    let i = find(s, DOT);
    if 0 <= i < s.len() {
        seq![s.take(i)] + dotted_parts(s.skip(i + 1))
    } else {
        seq![s]
    }
}

/// A string has at least one dot segment.
proof fn lemma_dotted_parts_len_pos(s: Seq<u8>)
    ensures
        dotted_parts(s).len() >= 1,
    decreases s.len(),
{
}

/// `s` is a well-formed dotted-quad IPv4 literal: exactly four segments,
/// each a decimal octet without leading zeros.
pub open spec fn is_ipv4(s: Seq<u8>) -> bool {
    &&& dotted_parts(s).len() == 4
    &&& forall|k: int| 0 <= k < 4 ==> is_ip_octet(#[trigger] dotted_parts(s)[k])
}

/// The address a well-formed dotted-quad literal denotes.
pub open spec fn ipv4_addr(s: Seq<u8>) -> Ipv4Address {
    let p = dotted_parts(s);
    Ipv4Address {
        o1: token_value(p[0]) as u8,
        o2: token_value(p[1]) as u8,
        o3: token_value(p[2]) as u8,
        o4: token_value(p[3]) as u8,
    }
}

/// Reads `s` as a dotted-quad IPv4 literal.
fn parse_ipv4(s: &[u8]) -> (r: Option<Ipv4Address>)
    ensures
        r is Some <==> is_ipv4(s@),
        r matches Some(a) ==> a == ipv4_addr(s@),
{
    proof {
        lemma_find_spec(s@, DOT);
    }
    let i1 = match find_byte(s, DOT) {
        Some(i) => i,
        None => {
            assert(dotted_parts(s@) =~= seq![s@]);
            return None;
        },
    };
    let n = s.len();
    let p0 = vstd::slice::slice_subrange(s, 0, i1);
    let r1 = vstd::slice::slice_subrange(s, i1 + 1, n);
    assert(dotted_parts(s@) =~= seq![p0@] + dotted_parts(r1@));
    proof {
        lemma_find_spec(r1@, DOT);
    }
    let i2 = match find_byte(r1, DOT) {
        Some(i) => i,
        None => {
            assert(dotted_parts(r1@) =~= seq![r1@]);
            return None;
        },
    };
    let p1 = vstd::slice::slice_subrange(r1, 0, i2);
    let r2 = vstd::slice::slice_subrange(r1, i2 + 1, r1.len());
    assert(dotted_parts(r1@) =~= seq![p1@] + dotted_parts(r2@));
    proof {
        lemma_find_spec(r2@, DOT);
    }
    let i3 = match find_byte(r2, DOT) {
        Some(i) => i,
        None => {
            assert(dotted_parts(r2@) =~= seq![r2@]);
            assert(dotted_parts(s@).len() == 3);
            return None;
        },
    };
    let p2 = vstd::slice::slice_subrange(r2, 0, i3);
    let p3 = vstd::slice::slice_subrange(r2, i3 + 1, r2.len());
    assert(dotted_parts(r2@) =~= seq![p2@] + dotted_parts(p3@));
    proof {
        lemma_find_spec(p3@, DOT);
    }
    if find_byte(p3, DOT).is_some() {
        proof {
            let i4 = find(p3@, DOT);
            assert(dotted_parts(p3@) =~= seq![p3@.take(i4)] + dotted_parts(p3@.skip(i4 + 1)));
            lemma_dotted_parts_len_pos(p3@.skip(i4 + 1));
        }
        assert(dotted_parts(s@).len() >= 5);
        return None;
    }
    assert(dotted_parts(p3@) =~= seq![p3@]);
    assert(dotted_parts(s@) =~= seq![p0@, p1@, p2@, p3@]);
    let o1 = match parse_ip_octet(p0) {
        Some(v) => v,
        None => {
            assert(dotted_parts(s@)[0] == p0@);
            return None;
        },
    };
    let o2 = match parse_ip_octet(p1) {
        Some(v) => v,
        None => {
            assert(dotted_parts(s@)[1] == p1@);
            return None;
        },
    };
    let o3 = match parse_ip_octet(p2) {
        Some(v) => v,
        None => {
            assert(dotted_parts(s@)[2] == p2@);
            return None;
        },
    };
    let o4 = match parse_ip_octet(p3) {
        Some(v) => v,
        None => {
            assert(dotted_parts(s@)[3] == p3@);
            return None;
        },
    };
    Some(Ipv4Address::new(o1, o2, o3, o4))
}

/// The ordered range a dash specification denotes: the base address through
/// the address whose last octet is `ending`, inclusive at both ends, the
/// first three octets held fixed.  Empty when `ending` is below the base's
/// last octet.
pub open spec fn spec_dash_range(a: Ipv4Address, ending: u8) -> Seq<Ipv4Address> {
    Seq::new(
        if a.o4 <= ending {
            (ending - a.o4 + 1) as nat
        } else {
            0
        },
        |k: int|
            Ipv4Address { o1: a.o1, o2: a.o2, o3: a.o3, o4: (a.o4 + k) as u8 },
    )
}

/// The host mask of a CIDR block: `32 - m` low bits set.
pub open spec fn spec_hostmask(m: int) -> u32
    recommends
        15 <= m <= 29,
{
    ((1u32 << (32 - m)) - 1) as u32
}

/// The ordered range a CIDR specification denotes: every address strictly
/// between the network address (host bits cleared) and the broadcast address
/// (host bits set).
pub open spec fn spec_cidr_range(a: Ipv4Address, m: int) -> Seq<Ipv4Address> {
    let hm = spec_hostmask(m);
    let start = (a.value() as u32) & !hm;
    Seq::new((hm - 1) as nat, |k: int| Ipv4Address::spec_from((start + 1 + k) as u32))
}

/// The part of `s` before the first occurrence of `sep`, or all of `s`.
pub open spec fn first_token(s: Seq<u8>, sep: u8) -> Seq<u8> {
    if find(s, sep) >= 0 {
        s.take(find(s, sep))
    } else {
        s
    }
}

/// Expansion of a dash specification `base-ending`, split at the first dash.
pub open spec fn spec_expand_dash(s: Seq<u8>) -> IpParserResult<
    Seq<Ipv4Address>,
    IpParserError,
> {
    let i = find(s, DASH);
    let base = s.take(i);
    let tok = first_token(s.skip(i + 1), DASH);
    if !is_ipv4(base) {
        Err(IpParserError::BaseIpError)
    } else if !is_u8_token(tok) {
        Err(IpParserError::IpRangeError)
    } else {
        Ok(spec_dash_range(ipv4_addr(base), token_value(tok) as u8))
    }
}

/// Expansion of a CIDR specification `base/mask`, split at the first slash.
pub open spec fn spec_expand_cidr(s: Seq<u8>) -> IpParserResult<
    Seq<Ipv4Address>,
    IpParserError,
> {
    let i = find(s, SLASH);
    let base = s.take(i);
    let tok = first_token(s.skip(i + 1), SLASH);
    if !is_ipv4(base) {
        Err(IpParserError::BaseIpError)
    } else if !(is_u8_token(tok) && 15 <= token_value(tok) <= 29) {
        Err(IpParserError::CidrNumberError)
    } else {
        Ok(spec_cidr_range(ipv4_addr(base), token_value(tok)))
    }
}

/// What expanding an address specification yields: the dash form when a dash
/// occurs, else the CIDR form when a slash occurs, else a single address.
pub open spec fn spec_expand(s: Seq<u8>) -> IpParserResult<Seq<Ipv4Address>, IpParserError> {
    if find(s, DASH) >= 0 {
        spec_expand_dash(s)
    } else if find(s, SLASH) >= 0 {
        spec_expand_cidr(s)
    } else if is_ipv4(s) {
        Ok(seq![ipv4_addr(s)])
    } else {
        Err(IpParserError::BaseIpError)
    }
}

/// The executable result `r` returns exactly the mathematical expansion `m`:
/// the same success or failure, the same addresses in the same order, the
/// same error.
pub open spec fn expansion_matches(
    r: IpParserResult<Vec<Ipv4Address>, IpParserError>,
    m: IpParserResult<Seq<Ipv4Address>, IpParserError>,
) -> bool {
    match r {
        Ok(v) => m is Ok && v@ == m->Ok_0,
        Err(e) => m is Err && e == m->Err_0,
    }
}

/// Law: for every valid dash specification `A.B.C.S-E` with `S <= E`, the
/// expansion succeeds and yields exactly `E - S + 1` addresses, the first
/// being `A.B.C.S` and the last `A.B.C.E`.
pub proof fn lemma_dash_expansion(s: Seq<u8>)
    requires
        find(s, DASH) >= 0,
        is_ipv4(s.take(find(s, DASH))),
        is_u8_token(first_token(s.skip(find(s, DASH) + 1), DASH)),
        ipv4_addr(s.take(find(s, DASH))).o4 <= token_value(
            first_token(s.skip(find(s, DASH) + 1), DASH),
        ),
    ensures
        spec_expand(s) is Ok,
        ({
            let a = ipv4_addr(s.take(find(s, DASH)));
            let e = token_value(first_token(s.skip(find(s, DASH) + 1), DASH));
            let r = spec_expand(s)->Ok_0;
            &&& r.len() == e - a.o4 + 1
            &&& r[0] == a
            &&& r[r.len() - 1] == (Ipv4Address { o1: a.o1, o2: a.o2, o3: a.o3, o4: e as u8 })
        }),
{
    let a = ipv4_addr(s.take(find(s, DASH)));
    let e = token_value(first_token(s.skip(find(s, DASH) + 1), DASH));
    let r = spec_expand(s)->Ok_0;
    assert(r[0] == (Ipv4Address { o1: a.o1, o2: a.o2, o3: a.o3, o4: (a.o4 + 0) as u8 }));
    assert((a.o4 + 0) as u8 == a.o4);
}

/// Law: the expansion is a function of the input string alone, so re-running
/// it on the same specification yields an identical ordered sequence.  Any
/// two results that the expander's contract admits on the same input agree
/// address for address.
pub proof fn lemma_expansion_idempotent(
    s: Seq<u8>,
    r1: IpParserResult<Vec<Ipv4Address>, IpParserError>,
    r2: IpParserResult<Vec<Ipv4Address>, IpParserError>,
)
    requires
        expansion_matches(r1, spec_expand(s)),
        expansion_matches(r2, spec_expand(s)),
    ensures
        r1 is Ok <==> r2 is Ok,
        r1 matches Ok(v1) ==> (r2 matches Ok(v2) && v1@ == v2@),
        r1 matches Err(e1) ==> (r2 matches Err(e2) && e1 == e2),
{
}

/// Expands a dash range from a parsed base address and ending octet.
fn parse_ip_string_with_dash(base_ip: Ipv4Address, ending_octet: u8) -> (r: IpParserResult<
    Vec<Ipv4Address>,
    IpParserError,
>)
    ensures
        r matches Ok(v) && v@ == spec_dash_range(base_ip, ending_octet),
{
    let mut range: Vec<Ipv4Address> = Vec::new();
    if ending_octet < base_ip.o4 {
        return Ok(range);
    }
    let mut n: u32 = base_ip.o4 as u32;
    while n <= ending_octet as u32
        invariant
            base_ip.o4 <= n <= ending_octet + 1,
            range@ =~= spec_dash_range(base_ip, ending_octet).take(n - base_ip.o4),
        decreases ending_octet + 1 - n,
    {
        range.push(Ipv4Address::new(base_ip.o1, base_ip.o2, base_ip.o3, n as u8));
        proof {
            assert(range@ =~= spec_dash_range(base_ip, ending_octet).take(n + 1 - base_ip.o4));
        }
        n = n + 1;
    }
    proof {
        let whole = spec_dash_range(base_ip, ending_octet);
        assert(range@ =~= whole) by {
            assert(whole.take(whole.len() as int) =~= whole);
        }
    }
    Ok(range)
}

/// Expands a CIDR block from a parsed base address and mask width.
fn parse_ip_string_with_cidr(base_ip: Ipv4Address, mask: u8) -> (r: IpParserResult<
    Vec<Ipv4Address>,
    IpParserError,
>)
    ensures
        15 <= mask <= 29 ==> (r matches Ok(v) && v@ == spec_cidr_range(base_ip, mask as int)),
        !(15 <= mask <= 29) ==> (r matches Err(e) && e == IpParserError::CidrNumberError),
{
    if mask < 15 || mask > 29 {
        return Err(IpParserError::CidrNumberError);
    }
    let raw_ip = base_ip.to_u32();
    let shift: u32 = 32 - mask as u32;
    let p: u32 = 1u32 << shift;
    proof {
        assert(p >= 8) by (bit_vector)
            requires p == 1u32 << shift && 3 <= shift <= 17;
    }
    let bin_mask: u32 = p - 1;
    let start = raw_ip & !bin_mask;
    let end = raw_ip | bin_mask;
    proof {
        assert((raw_ip & !bin_mask) + bin_mask == (raw_ip | bin_mask) && (raw_ip & !bin_mask)
            <= raw_ip) by (bit_vector);
        assert(bin_mask >= 7) by (bit_vector)
            requires bin_mask == (1u32 << shift) - 1 && 3 <= shift <= 17;
    }
    let ghost whole = spec_cidr_range(base_ip, mask as int);
    assert(whole.len() == bin_mask - 1);
    let mut range: Vec<Ipv4Address> = Vec::new();
    let mut n: u32 = start + 1;
    while n < end
        invariant
            start + 1 <= n <= end,
            end == start + bin_mask,
            whole == spec_cidr_range(base_ip, mask as int),
            whole.len() == bin_mask - 1,
            start == (base_ip.value() as u32) & !spec_hostmask(mask as int),
            bin_mask == spec_hostmask(mask as int),
            range@ =~= whole.take(n - start - 1),
        decreases end - n,
    {
        range.push(Ipv4Address::from_u32(n));
        proof {
            assert(range@ =~= whole.take(n - start));
        }
        n = n + 1;
    }
    proof {
        assert(range@ =~= whole) by {
            assert(whole.take(whole.len() as int) =~= whole);
        }
    }
    Ok(range)
}

/// Expands an address specification into its ordered sequence of host
/// addresses.
///
/// The result is exactly [`spec_expand`] of the input bytes: a dash form
/// yields the base through the ending octet inclusive (empty when the ending
/// octet is below the base's), a CIDR form yields every address strictly
/// between the network and broadcast addresses, and a bare literal yields
/// itself alone.  A malformed base address fails with `BaseIpError`, a mask
/// that is not a number from 15 to 29 with `CidrNumberError`, and a dash
/// ending octet that is not a number up to 255 with `IpRangeError`.
pub fn parse_ip_string(ip_str: &str) -> (r: IpParserResult<Vec<Ipv4Address>, IpParserError>)
    ensures
        expansion_matches(r, spec_expand(ip_str.spec_bytes())),
{
    let bytes: &[u8] = ip_str.as_bytes();
    let n = bytes.len();
    if let Some(i) = find_byte(bytes, DASH) {
        let base = vstd::slice::slice_subrange(bytes, 0, i);
        let rest = vstd::slice::slice_subrange(bytes, i + 1, n);
        proof {
            assert(rest@ =~= bytes@.skip(i + 1));
        }
        let tok = match find_byte(rest, DASH) {
            Some(j) => vstd::slice::slice_subrange(rest, 0, j),
            None => rest,
        };
        assert(tok@ == first_token(bytes@.skip(i + 1), DASH));
        let base_ip = match parse_ipv4(base) {
            Some(a) => a,
            None => {
                return Err(IpParserError::BaseIpError);
            },
        };
        let ending_octet = match parse_u8_token(tok) {
            Some(v) => v,
            None => {
                return Err(IpParserError::IpRangeError);
            },
        };
        parse_ip_string_with_dash(base_ip, ending_octet)
    } else if let Some(i) = find_byte(bytes, SLASH) {
        let base = vstd::slice::slice_subrange(bytes, 0, i);
        let rest = vstd::slice::slice_subrange(bytes, i + 1, n);
        proof {
            assert(rest@ =~= bytes@.skip(i + 1));
        }
        let tok = match find_byte(rest, SLASH) {
            Some(j) => vstd::slice::slice_subrange(rest, 0, j),
            None => rest,
        };
        assert(tok@ == first_token(bytes@.skip(i + 1), SLASH));
        let base_ip = match parse_ipv4(base) {
            Some(a) => a,
            None => {
                return Err(IpParserError::BaseIpError);
            },
        };
        let mask = match parse_u8_token(tok) {
            Some(v) => v,
            None => {
                return Err(IpParserError::CidrNumberError);
            },
        };
        parse_ip_string_with_cidr(base_ip, mask)
    } else {
        match parse_ipv4(bytes) {
            Some(a) => {
                let mut single: Vec<Ipv4Address> = Vec::new();
                single.push(a);
                assert(single@ =~= seq![ipv4_addr(bytes@)]);
                Ok(single)
            },
            None => Err(IpParserError::BaseIpError),
        }
    }
}

} // verus!

//! Target endpoints: a domain name with a port, or a concrete socket address
//! held as plain bytes, with the textual rendering the rest of the proxy
//! shows in labels and error messages.

use vstd::prelude::*;
use crate::text::{all_dec_digits, dec_str, dec_value, hex_str, is_dec_digit, push_dec, push_hex, u16_from_chars, parse_u16};

verus! {

/// The bytes of an IP address: four for version four, sixteen for version six.
#[derive(Debug)]
pub enum IpBytes {
    V4([u8; 4]),
    V6([u8; 16]),
}

/// A concrete socket endpoint: an IP address and a port.
#[derive(Debug)]
pub struct SockAddrParts {
    pub ip: IpBytes,
    pub port: u16,
}

/// proxy address
#[derive(Debug)]
pub enum Address {
    /// host, port
    Domain(String, u16),
    /// concrete socket address
    Sock(SockAddrParts),
}

/// Mathematical image of an `Address`.
#[verifier::ext_equal]
pub enum AddressView {
    Domain { host: Seq<char>, port: u16 },
    V4 { ip: Seq<u8>, port: u16 },
    V6 { ip: Seq<u8>, port: u16 },
}

impl View for Address {
    type V = AddressView;

    open spec fn view(&self) -> AddressView {
        match self {
            Address::Domain(host, port) => AddressView::Domain { host: host@, port: *port },
            Address::Sock(sa) => match sa.ip {
                IpBytes::V4(ip) => AddressView::V4 { ip: ip@, port: sa.port },
                IpBytes::V6(ip) => AddressView::V6 { ip: ip@, port: sa.port },
            },
        }
    }
}

/// The port of an address.
pub open spec fn addr_port(a: AddressView) -> u16 {
    match a {
        AddressView::Domain { port, .. } => port,
        AddressView::V4 { port, .. } => port,
        AddressView::V6 { port, .. } => port,
    }
}

/// The dotted-decimal rendering of four address bytes.
pub open spec fn v4_chars(ip: Seq<u8>) -> Seq<char> {
    dec_str(ip[0] as int) + seq!['.'] + dec_str(ip[1] as int) + seq!['.'] + dec_str(ip[2] as int)
        + seq!['.'] + dec_str(ip[3] as int)
}

/// The eight 16-bit segments of a version-six address.
pub open spec fn v6_segs(ip: Seq<u8>) -> Seq<u16> {
    Seq::new(8, |i: int| (ip[2 * i] * 256 + ip[2 * i + 1]) as u16)
}

/// How many consecutive zero segments begin at `i`.
pub open spec fn zero_run_len(segs: Seq<u16>, i: int) -> int
    decreases segs.len() - i,
    when 0 <= i <= segs.len()
{
    if i >= segs.len() || segs[i] != 0 {
        0
    } else {
        1 + zero_run_len(segs, i + 1)
    }
}

/// The start of the leftmost longest run of zero segments at or after `i`.
pub open spec fn best_zero_run(segs: Seq<u16>, i: int) -> int
    decreases segs.len() - i,
    when 0 <= i <= segs.len()
{
    if i >= segs.len() {
        i
    } else {
        let rest = best_zero_run(segs, i + 1);
        if zero_run_len(segs, i) >= zero_run_len(segs, rest) {
            i
        } else {
            rest
        }
    }
}

/// Segments joined by colons, each in lower-case hexadecimal.
pub open spec fn seg_chars(segs: Seq<u16>) -> Seq<char>
    decreases segs.len(),
{
    if segs.len() == 0 {
        Seq::empty()
    } else if segs.len() == 1 {
        hex_str(segs[0] as int)
    } else {
        seg_chars(segs.drop_last()) + seq![':'] + hex_str(segs.last() as int)
    }
}

/// Is this sixteen-byte address a mapped version-four address?
pub open spec fn is_v4_mapped(ip: Seq<u8>) -> bool {
    (forall|i: int| 0 <= i < 10 ==> ip[i] == 0) && ip[10] == 0xff && ip[11] == 0xff
}

/// The canonical textual form of a version-six address: a mapped
/// version-four address keeps its dotted tail, and otherwise the leftmost
/// longest run of two or more zero segments collapses to a double colon.
pub open spec fn v6_chars(ip: Seq<u8>) -> Seq<char> {
    if is_v4_mapped(ip) {
        seq![':', ':', 'f', 'f', 'f', 'f', ':'] + v4_chars(ip.skip(12))
    } else {
        let segs = v6_segs(ip);
        let bs = best_zero_run(segs, 0);
        let bl = zero_run_len(segs, bs);
        if bl > 1 {
            seg_chars(segs.take(bs)) + seq![':', ':'] + seg_chars(segs.skip(bs + bl))
        } else {
            seg_chars(segs)
        }
    }
}

/// The textual form of an address: `host:port`, dotted decimal with a port,
/// or a bracketed version-six address with a port.
pub open spec fn addr_chars(a: AddressView) -> Seq<char> {
    match a {
        AddressView::Domain { host, port } => host + seq![':'] + dec_str(port as int),
        AddressView::V4 { ip, port } => v4_chars(ip) + seq![':'] + dec_str(port as int),
        AddressView::V6 { ip, port } => seq!['['] + v6_chars(ip) + seq![']', ':'] + dec_str(
            port as int,
        ),
    }
}

/// Append the dotted-decimal form of four address bytes.
fn push_v4(s: &mut String, ip: &[u8; 4])
    ensures
        final(s)@ == old(s)@ + v4_chars(ip@),
{
    proof {
        reveal_strlit(".");
    }
    push_dec(s, ip[0] as u64);
    s.append(".");
    push_dec(s, ip[1] as u64);
    s.append(".");
    push_dec(s, ip[2] as u64);
    s.append(".");
    push_dec(s, ip[3] as u64);
    proof {
        assert(s@ =~= old(s)@ + v4_chars(ip@));
    }
}

/// The 16-bit segment of a version-six address at `i`.
fn v6_seg(ip: &[u8; 16], i: usize) -> (r: u16)
    requires
        i < 8,
    ensures
        r == v6_segs(ip@)[i as int],
{
    (ip[2 * i] as u16) * 256 + (ip[2 * i + 1] as u16)
}

/// How many consecutive zero segments begin at `i`.
fn zero_run_len_at(ip: &[u8; 16], i: usize) -> (r: usize)
    requires
        i <= 8,
    ensures
        r == zero_run_len(v6_segs(ip@), i as int),
        i + r <= 8,
    decreases 8 - i,
{
    if i >= 8 || v6_seg(ip, i) != 0 {
        0
    } else {
        1 + zero_run_len_at(ip, i + 1)
    }
}

/// The start of the leftmost longest run of zero segments at or after `i`.
fn best_zero_run_at(ip: &[u8; 16], i: usize) -> (r: usize)
    requires
        i <= 8,
    ensures
        r == best_zero_run(v6_segs(ip@), i as int),
        i <= r <= 8,
    decreases 8 - i,
{
    if i >= 8 {
        i
    } else {
        let rest = best_zero_run_at(ip, i + 1);
        if zero_run_len_at(ip, i) >= zero_run_len_at(ip, rest) {
            i
        } else {
            rest
        }
    }
}

/// Append the segments in `[from, to)` joined by colons.
fn push_segs(s: &mut String, ip: &[u8; 16], from: usize, to: usize)
    requires
        from <= to <= 8,
    ensures
        final(s)@ == old(s)@ + seg_chars(v6_segs(ip@).subrange(from as int, to as int)),
{
    proof {
        reveal_strlit(":");
        assert(":"@ =~= seq![':']);
    }
    let mut i: usize = from;
    while i < to
        invariant
            from <= i <= to <= 8,
            s@ == old(s)@ + seg_chars(v6_segs(ip@).subrange(from as int, i as int)),
        decreases to - i,
    {
        if i > from {
            s.append(":");
        }
        push_hex(s, v6_seg(ip, i) as u64);
        proof {
            reveal_strlit(":");
            assert(":"@ =~= seq![':']);
            let segs = v6_segs(ip@);
            let prev = segs.subrange(from as int, i as int);
            let cur = segs.subrange(from as int, i + 1);
            assert(cur.drop_last() =~= prev);
            assert(cur.last() == segs[i as int]);
            if i > from {
                assert(s@ =~= old(s)@ + seg_chars(cur));
            } else {
                assert(cur.len() == 1);
                assert(s@ =~= old(s)@ + seg_chars(cur));
            }
        }
        i += 1;
    }
    proof {
        assert(seg_chars(v6_segs(ip@).subrange(from as int, to as int)) == seg_chars(
            v6_segs(ip@).subrange(from as int, i as int),
        ));
    }
}

/// Is this sixteen-byte address a mapped version-four address?
fn v4_mapped(ip: &[u8; 16]) -> (r: bool)
    ensures
        r == is_v4_mapped(ip@),
{
    let mut i: usize = 0;
    while i < 10
        invariant
            i <= 10,
            forall|j: int| 0 <= j < i ==> ip@[j] == 0,
        decreases 10 - i,
    {
        if ip[i] != 0 {
            return false;
        }
        i += 1;
    }
    ip[10] == 0xff && ip[11] == 0xff
}

/// Append the canonical form of a version-six address.
fn push_v6(s: &mut String, ip: &[u8; 16])
    ensures
        final(s)@ == old(s)@ + v6_chars(ip@),
{
    if v4_mapped(ip) {
        proof {
            reveal_strlit("::ffff:");
            assert("::ffff:"@ =~= seq![':', ':', 'f', 'f', 'f', 'f', ':']);
        }
        s.append("::ffff:");
        let tail: [u8; 4] = [ip[12], ip[13], ip[14], ip[15]];
        proof {
            assert(tail@ =~= ip@.skip(12));
        }
        push_v4(s, &tail);
        proof {
            assert(s@ =~= old(s)@ + v6_chars(ip@));
        }
        return ;
    }
    let ghost segs = v6_segs(ip@);
    let bs = best_zero_run_at(ip, 0);
    let bl = zero_run_len_at(ip, bs);
    if bl > 1 {
        proof {
            reveal_strlit("::");
            assert("::"@ =~= seq![':', ':']);
            assert(segs.take(bs as int) =~= segs.subrange(0, bs as int));
        }
        push_segs(s, ip, 0, bs);
        s.append("::");
        proof {
            assert(segs.skip(bs + bl) =~= segs.subrange(bs + bl, 8));
        }
        push_segs(s, ip, bs + bl, 8);
        proof {
            assert(s@ =~= old(s)@ + v6_chars(ip@));
        }
    } else {
        proof {
            assert(segs =~= segs.subrange(0, 8));
        }
        push_segs(s, ip, 0, 8);
        proof {
            assert(s@ =~= old(s)@ + v6_chars(ip@));
        }
    }
}

impl Address {
    /// The target's port.
    pub fn port(&self) -> (r: u16)
        ensures
            r == addr_port(self@),
    {
        match self {
            Address::Domain(_, port) => *port,
            Address::Sock(sa) => sa.port,
        }
    }

    /// An equal address, field for field.
    pub fn duplicate(&self) -> (r: Self)
        ensures
            r@ == self@,
    {
        match self {
            Address::Domain(host, port) => Address::Domain(host.clone(), *port),
            Address::Sock(sa) => Address::Sock(
                SockAddrParts {
                    ip: match sa.ip {
                        IpBytes::V4(ip) => IpBytes::V4(ip),
                        IpBytes::V6(ip) => IpBytes::V6(ip),
                    },
                    port: sa.port,
                },
            ),
        }
    }

    /// The textual form shown in labels and error messages.
    pub fn display_string(&self) -> (r: String)
        ensures
            r@ == addr_chars(self@),
    {
        proof {
            reveal_strlit(":");
            assert(":"@ =~= seq![':']);
            reveal_strlit("[");
            assert("["@ =~= seq!['[']);
            reveal_strlit("]:");
            assert("]:"@ =~= seq![']', ':']);
        }
        let mut s = String::new();
        match self {
            Address::Domain(host, port) => {
                s.append(host.as_str());
                s.append(":");
                push_dec(&mut s, *port as u64);
                proof {
                    assert(s@ =~= addr_chars(self@));
                }
            },
            Address::Sock(sa) => {
                match &sa.ip {
                    IpBytes::V4(ip) => {
                        push_v4(&mut s, ip);
                        s.append(":");
                        push_dec(&mut s, sa.port as u64);
                    },
                    IpBytes::V6(ip) => {
                        s.append("[");
                        push_v6(&mut s, ip);
                        s.append("]:");
                        push_dec(&mut s, sa.port as u64);
                    },
                }
                proof {
                    assert(s@ =~= addr_chars(self@));
                }
            },
        }
        s
    }
}

/// The error of an address string that parses as neither form.
#[derive(Debug)]
pub struct InvalidAddress;

/// The first index of `c` at or after `i`, or the length.
pub open spec fn char_at_or_after(s: Seq<char>, c: char, i: int) -> int
    decreases s.len() - i,
    when 0 <= i <= s.len()
{
    if i >= s.len() || s[i] == c {
        i
    } else {
        char_at_or_after(s, c, i + 1)
    }
}

/// The last index of `c` strictly before `i`, or minus one.
pub open spec fn char_before(s: Seq<char>, c: char, i: int) -> int
    decreases i,
{
    if i <= 0 {
        -1
    } else if s[i - 1] == c {
        i - 1
    } else {
        char_before(s, c, i - 1)
    }
}

/// Is this a hexadecimal digit?
pub open spec fn is_hex_digit(c: char) -> bool {
    ('0' <= c && c <= '9') || ('a' <= c && c <= 'f') || ('A' <= c && c <= 'F')
}

/// The numeric value of a hexadecimal digit character.
pub open spec fn hex_digit_value(c: char) -> int {
    if '0' <= c && c <= '9' {
        c as int - '0' as int
    } else if 'a' <= c && c <= 'f' {
        10 + c as int - 'a' as int
    } else {
        10 + c as int - 'A' as int
    }
}

/// The value of an all-hexadecimal string, most significant digit first.
pub open spec fn hex_value(s: Seq<char>) -> int
    decreases s.len(),
{
    if s.len() == 0 {
        0
    } else {
        hex_value(s.drop_last()) * 16 + hex_digit_value(s.last())
    }
}

/// A version-six group: one to four hexadecimal digits.
pub open spec fn group_value(s: Seq<char>) -> Option<u16> {
    if 1 <= s.len() <= 4 && (forall|i: int| 0 <= i < s.len() ==> is_hex_digit(#[trigger] s[i])) {
        Some(hex_value(s) as u16)
    } else {
        None
    }
}

/// The pieces of `s[i..]` cut at every colon, empty pieces kept.
pub open spec fn colon_pieces(s: Seq<char>, i: int) -> Seq<Seq<char>>
    decreases s.len() - i,
    when 0 <= i <= s.len()
    via colon_pieces_dec
{
    let p = char_at_or_after(s, ':', i);
    if p >= s.len() {
        seq![s.subrange(i, s.len() as int)]
    } else {
        seq![s.subrange(i, p)] + colon_pieces(s, p + 1)
    }
}

#[via_fn]
proof fn colon_pieces_dec(s: Seq<char>, i: int) {
    lemma_char_at_or_after(s, ':', i);
}

proof fn lemma_char_at_or_after(s: Seq<char>, c: char, i: int)
    requires
        0 <= i <= s.len(),
    ensures
        i <= char_at_or_after(s, c, i) <= s.len(),
    decreases s.len() - i,
{
    if i < s.len() && s[i] != c {
        lemma_char_at_or_after(s, c, i + 1);
    }
}

/// All pieces as groups, or nothing if any piece is no group.
pub open spec fn all_groups(ps: Seq<Seq<char>>) -> Option<Seq<u16>>
    decreases ps.len(),
{
    if ps.len() == 0 {
        Some(Seq::empty())
    } else {
        match group_value(ps[0]) {
            Some(g) => match all_groups(ps.skip(1)) {
                Some(r) => Some(seq![g] + r),
                None => None,
            },
            None => None,
        }
    }
}

/// All pieces as groups, except that the last may be a dotted decimal quad
/// standing for the final two segments.
pub open spec fn groups_with_tail(ps: Seq<Seq<char>>) -> Option<Seq<u16>> {
    if ps.len() == 0 {
        Some(Seq::empty())
    } else {
        match all_groups(ps.drop_last()) {
            Some(g) => match group_value(ps.last()) {
                Some(x) => Some(g + seq![x]),
                None => match v4_quad_of(ps.last()) {
                    Some(q) => Some(
                        g + seq![(q[0] * 256 + q[1]) as u16, (q[2] * 256 + q[3]) as u16],
                    ),
                    None => None,
                },
            },
            None => None,
        }
    }
}

/// The first index of a double colon at or after `i`, or the length.
pub open spec fn double_colon_at(s: Seq<char>, i: int) -> int
    decreases s.len() - i,
    when 0 <= i <= s.len()
{
    if i + 1 >= s.len() {
        s.len() as int
    } else if s[i] == ':' && s[i + 1] == ':' {
        i
    } else {
        double_colon_at(s, i + 1)
    }
}

/// The sixteen bytes of eight big-endian segments.
pub open spec fn segs_to_bytes(g: Seq<u16>) -> Seq<u8> {
    Seq::new(16, |i: int| if i % 2 == 0 {
        (g[i / 2] / 256) as u8
    } else {
        (g[i / 2] % 256) as u8
    })
}

/// The segments a version-six address text names: eight colon-separated
/// groups, or fewer with one double colon standing for the missing zeros.
pub open spec fn v6_segments_of(s: Seq<char>) -> Option<Seq<u16>> {
    let dc = double_colon_at(s, 0);
    if dc == s.len() {
        match groups_with_tail(colon_pieces(s, 0)) {
            Some(g) => if g.len() == 8 {
                Some(g)
            } else {
                None
            },
            None => None,
        }
    } else {
        let left = s.take(dc);
        let right = s.skip(dc + 2);
        let lg = if left.len() == 0 {
            Some(Seq::<u16>::empty())
        } else {
            all_groups(colon_pieces(left, 0))
        };
        let rg = if right.len() == 0 {
            Some(Seq::<u16>::empty())
        } else {
            groups_with_tail(colon_pieces(right, 0))
        };
        match (lg, rg) {
            (Some(l), Some(r)) => if l.len() + r.len() <= 7 {
                Some(l + Seq::new((8 - l.len() - r.len()) as nat, |i: int| 0u16) + r)
            } else {
                None
            },
            _ => None,
        }
    }
}

/// A bracketed version-six socket address: `[groups]:port`.
pub open spec fn sock_v6_of(s: Seq<char>) -> Option<AddressView> {
    if s.len() >= 2 && s[0] == '[' {
        let q = char_at_or_after(s, ']', 0);
        if q < s.len() && q + 1 < s.len() && s[q + 1] == ':' {
            match (v6_segments_of(s.subrange(1, q)), sock_port_value(s.skip(q + 2))) {
                (Some(g), Some(port)) => Some(
                    AddressView::V6 { ip: segs_to_bytes(g), port },
                ),
                _ => None,
            }
        } else {
            None
        }
    } else {
        None
    }
}

/// A dotted-decimal octet: one to three digits, no leading zero, at most 255.
pub open spec fn octet_value(s: Seq<char>) -> Option<u8> {
    if 1 <= s.len() <= 3 && all_dec_digits(s) && (s.len() > 1 ==> s[0] != '0') && dec_value(s)
        <= 255 {
        Some(dec_value(s) as u8)
    } else {
        None
    }
}

/// A socket-address port: one or more digits valuing at most the largest
/// 16-bit number. Unlike a bare port token, no sign is accepted.
pub open spec fn sock_port_value(s: Seq<char>) -> Option<u16> {
    if s.len() > 0 && s[0] == '+' {
        None
    } else {
        u16_from_chars(s)
    }
}

/// A dotted decimal quad: four octets joined by dots.
pub open spec fn v4_quad_of(hp: Seq<char>) -> Option<Seq<u8>> {
    let d1 = char_at_or_after(hp, '.', 0);
    let d2 = if d1 < hp.len() {
        char_at_or_after(hp, '.', d1 + 1)
    } else {
        hp.len() as int
    };
    let d3 = if d2 < hp.len() {
        char_at_or_after(hp, '.', d2 + 1)
    } else {
        hp.len() as int
    };
    if d1 < hp.len() && d2 < hp.len() && d3 < hp.len() && char_at_or_after(hp, '.', d3 + 1)
        == hp.len() {
        let o0 = octet_value(hp.take(d1));
        let o1 = octet_value(hp.subrange(d1 + 1, d2));
        let o2 = octet_value(hp.subrange(d2 + 1, d3));
        let o3 = octet_value(hp.skip(d3 + 1));
        if o0 is Some && o1 is Some && o2 is Some && o3 is Some {
            Some(seq![o0->0, o1->0, o2->0, o3->0])
        } else {
            None
        }
    } else {
        None
    }
}

/// A version-four socket address: four octets joined by dots, one colon, and
/// a port.
pub open spec fn sock_v4_of(s: Seq<char>) -> Option<AddressView> {
    let c = char_at_or_after(s, ':', 0);
    if c < s.len() && char_at_or_after(s, ':', c + 1) == s.len() {
        match (v4_quad_of(s.take(c)), sock_port_value(s.skip(c + 1))) {
            (Some(q), Some(port)) => Some(AddressView::V4 { ip: q, port }),
            _ => None,
        }
    } else {
        None
    }
}

/// What an address string parses to: a version-four or bracketed version-six
/// socket address when the whole string is one, else a domain split at the
/// rightmost colon. The host before that colon is never empty, and the port
/// after it must be a 16-bit number.
pub open spec fn addr_from_chars(s: Seq<char>) -> Option<AddressView> {
    match sock_v4_of(s) {
        Some(a) => Some(a),
        None => match sock_v6_of(s) {
            Some(a) => Some(a),
            None => {
                let r = char_before(s, ':', s.len() as int);
                if r >= 1 {
                    match u16_from_chars(s.skip(r + 1)) {
                        Some(port) => Some(AddressView::Domain { host: s.take(r), port }),
                        None => None,
                    }
                } else {
                    None
                }
            },
        },
    }
}

/// Find `c` in `v` at or after `i`.
fn find_at_or_after(v: &Vec<char>, c: char, i: usize) -> (r: usize)
    requires
        i <= v@.len(),
    ensures
        r == char_at_or_after(v@, c, i as int),
        i <= r <= v@.len(),
    decreases v@.len() - i,
{
    if i >= v.len() || v[i] == c {
        i
    } else {
        find_at_or_after(v, c, i + 1)
    }
}

/// Find the last `c` in `v` strictly before `i`.
fn find_before(v: &Vec<char>, c: char, i: usize) -> (r: Option<usize>)
    requires
        i <= v@.len(),
    ensures
        match r {
            Some(j) => j == char_before(v@, c, i as int) && j < i,
            None => char_before(v@, c, i as int) == -1,
        },
    decreases i,
{
    if i == 0 {
        None
    } else if v[i - 1] == c {
        Some(i - 1)
    } else {
        find_before(v, c, i - 1)
    }
}

/// Read one dotted-decimal octet from `v[from..to]`.
fn parse_octet(v: &Vec<char>, from: usize, to: usize) -> (r: Option<u8>)
    requires
        from <= to <= v@.len(),
    ensures
        r == octet_value(v@.subrange(from as int, to as int)),
{
    let ghost piece = v@.subrange(from as int, to as int);
    let n = to - from;
    if n == 0 || n > 3 {
        return None;
    }
    let mut i: usize = from;
    let mut val: u32 = 0;
    while i < to
        invariant
            from <= i <= to <= v@.len(),
            to - from <= 3,
            piece == v@.subrange(from as int, to as int),
            forall|j: int| from <= j < i ==> is_dec_digit(#[trigger] v@[j]),
            val == dec_value(piece.take(i - from)),
            i - from == 0 ==> val == 0,
            i - from == 1 ==> val <= 9,
            i - from == 2 ==> val <= 99,
            val <= 999,
        decreases to - i,
    {
        let c = v[i];
        if c < '0' || c > '9' {
            proof {
                assert(piece[i - from] == v@[i as int]);
                assert(!all_dec_digits(piece)) by {
                    assert(!is_dec_digit(piece[i - from]));
                }
            }
            return None;
        }
        proof {
            assert(piece.take(i + 1 - from).drop_last() =~= piece.take(i - from));
            assert(piece.take(i + 1 - from).last() == piece[i - from]);
            assert(piece[i - from] == v@[i as int]);
        }
        val = val * 10 + (c as u32 - 48);
        i += 1;
    }
    proof {
        assert(piece.take(i - from) =~= piece);
        assert(all_dec_digits(piece)) by {
            assert forall|t: int| 0 <= t < piece.len() implies is_dec_digit(
                #[trigger] piece[t],
            ) by {
                assert(piece[t] == v@[t + from]);
            }
        }
    }
    if n > 1 && v[from] == '0' {
        proof {
            assert(piece[0] == v@[from as int]);
        }
        return None;
    }
    if val > 255 {
        None
    } else {
        Some(val as u8)
    }
}

/// Read one version-six group from `v[from..to]`.
fn parse_group(v: &Vec<char>, from: usize, to: usize) -> (r: Option<u16>)
    requires
        from <= to <= v@.len(),
    ensures
        r == group_value(v@.subrange(from as int, to as int)),
{
    let ghost piece = v@.subrange(from as int, to as int);
    let n = to - from;
    if n == 0 || n > 4 {
        return None;
    }
    let mut i: usize = from;
    let mut val: u32 = 0;
    while i < to
        invariant
            from <= i <= to <= v@.len(),
            to - from <= 4,
            piece == v@.subrange(from as int, to as int),
            forall|j: int| from <= j < i ==> is_hex_digit(#[trigger] v@[j]),
            val == hex_value(piece.take(i - from)),
            i - from == 0 ==> val == 0,
            i - from == 1 ==> val <= 0xf,
            i - from == 2 ==> val <= 0xff,
            i - from == 3 ==> val <= 0xfff,
            val <= 0xffff,
        decreases to - i,
    {
        let c = v[i];
        let d: u32 = if '0' <= c && c <= '9' {
            c as u32 - 48
        } else if 'a' <= c && c <= 'f' {
            c as u32 - 97 + 10
        } else if 'A' <= c && c <= 'F' {
            c as u32 - 65 + 10
        } else {
            proof {
                assert(piece[i - from] == v@[i as int]);
                assert(!is_hex_digit(piece[i - from]));
            }
            return None;
        };
        proof {
            assert(piece.take(i + 1 - from).drop_last() =~= piece.take(i - from));
            assert(piece.take(i + 1 - from).last() == piece[i - from]);
            assert(piece[i - from] == v@[i as int]);
            assert(d == hex_digit_value(v@[i as int]));
        }
        val = val * 16 + d;
        i += 1;
    }
    proof {
        assert(piece.take(i - from) =~= piece);
        assert(forall|t: int| 0 <= t < piece.len() ==> is_hex_digit(#[trigger] piece[t])) by {
            assert forall|t: int| 0 <= t < piece.len() implies is_hex_digit(
                #[trigger] piece[t],
            ) by {
                assert(piece[t] == v@[t + from]);
            }
        }
    }
    Some(val as u16)
}

/// Read every colon-separated group of `v`.
fn parse_groups(v: &Vec<char>) -> (r: Option<Vec<u16>>)
    ensures
        match r {
            Some(g) => all_groups(colon_pieces(v@, 0)) == Some(g@),
            None => all_groups(colon_pieces(v@, 0)) is None,
        },
{
    let mut out: Vec<u16> = Vec::new();
    let mut i: usize = 0;
    proof {
        if all_groups(colon_pieces(v@, 0)) is Some {
            assert(out@ + all_groups(colon_pieces(v@, 0))->Some_0 =~= all_groups(
                colon_pieces(v@, 0),
            )->Some_0);
        }
    }
    loop
        invariant
            i <= v@.len(),
            all_groups(colon_pieces(v@, 0)) == (match all_groups(colon_pieces(v@, i as int)) {
                Some(rest) => Some(out@ + rest),
                None => None::<Seq<u16>>,
            }),
        decreases v@.len() + 1 - i,
    {
        let p = find_at_or_after(v, ':', i);
        let ghost pieces_here = colon_pieces(v@, i as int);
        proof {
            assert(pieces_here[0] == v@.subrange(i as int, p as int));
        }
        match parse_group(v, i, p) {
            None => {
                return None;
            },
            Some(g) => {
                let ghost before = out@;
                out.push(g);
                proof {
                    if p < v@.len() {
                        assert(pieces_here.skip(1) =~= colon_pieces(v@, p + 1));
                        if all_groups(colon_pieces(v@, p + 1)) is Some {
                            assert(before + (seq![g] + all_groups(colon_pieces(v@, p + 1))->Some_0)
                                =~= out@ + all_groups(colon_pieces(v@, p + 1))->Some_0);
                        }
                    } else {
                        assert(pieces_here =~= seq![v@.subrange(i as int, p as int)]);
                        assert(pieces_here.skip(1) =~= Seq::<Seq<char>>::empty());
                        assert(all_groups(pieces_here) == Some(seq![g] + Seq::<u16>::empty()));
                        assert(before + (seq![g] + Seq::<u16>::empty()) =~= out@);
                    }
                }
                if p >= v.len() {
                    return Some(out);
                }
                i = p + 1;
            },
        }
    }
}

proof fn lemma_char_at_or_after_le(s: Seq<char>, c: char, i: int, k: int)
    requires
        0 <= i <= k < s.len(),
        s[k] == c,
    ensures
        char_at_or_after(s, c, i) <= k,
    decreases k - i,
{
    if i < k && s[i] != c {
        lemma_char_at_or_after_le(s, c, i + 1, k);
    }
}

proof fn lemma_char_at_or_after_none(s: Seq<char>, c: char, i: int)
    requires
        0 <= i <= s.len(),
        forall|j: int| i <= j < s.len() ==> s[j] != c,
    ensures
        char_at_or_after(s, c, i) == s.len(),
    decreases s.len() - i,
{
    if i < s.len() {
        lemma_char_at_or_after_none(s, c, i + 1);
    }
}

proof fn lemma_char_at_or_after_prefix(s: Seq<char>, c: char, i: int, rc: int)
    requires
        0 <= i <= rc <= s.len(),
    ensures
        ({
            let p = char_at_or_after(s, c, i);
            let pt = char_at_or_after(s.take(rc), c, i);
            if p < rc {
                pt == p
            } else {
                pt == rc
            }
        }),
    decreases rc - i,
{
    lemma_char_at_or_after(s, c, i);
    if i < rc {
        assert(s.take(rc)[i] == s[i]);
        if s[i] != c {
            lemma_char_at_or_after_prefix(s, c, i + 1, rc);
        }
    }
}

proof fn lemma_char_before_props(s: Seq<char>, c: char, i: int)
    requires
        0 <= i <= s.len(),
    ensures
        ({
            let r = char_before(s, c, i);
            &&& -1 <= r < i
            &&& (r >= 0 ==> s[r] == c)
            &&& forall|j: int| r < j < i ==> s[j] != c
        }),
    decreases i,
{
    if i > 0 && s[i - 1] != c {
        lemma_char_before_props(s, c, i - 1);
    }
}

/// Cutting at the last colon: the pieces are the pieces of what stands before
/// it, then what stands after it.
proof fn lemma_pieces_split(s: Seq<char>, i: int, rc: int)
    requires
        0 <= i <= rc < s.len(),
        s[rc] == ':',
        forall|j: int| rc < j < s.len() ==> s[j] != ':',
    ensures
        colon_pieces(s, i) == colon_pieces(s.take(rc), i) + seq![s.skip(rc + 1)],
    decreases rc - i,
{
    let t = s.take(rc);
    let p = char_at_or_after(s, ':', i);
    lemma_char_at_or_after(s, ':', i);
    lemma_char_at_or_after_le(s, ':', i, rc);
    lemma_char_at_or_after_prefix(s, ':', i, rc);
    if p < rc {
        assert(t.subrange(i, p) =~= s.subrange(i, p));
        lemma_pieces_split(s, p + 1, rc);
        assert(colon_pieces(s, i) =~= colon_pieces(t, i) + seq![s.skip(rc + 1)]);
    } else {
        assert(p == rc);
        lemma_char_at_or_after_none(s, ':', rc + 1);
        assert(colon_pieces(s, rc + 1) =~= seq![s.subrange(rc + 1, s.len() as int)]);
        assert(t.subrange(i, rc) =~= s.subrange(i, rc));
        assert(colon_pieces(t, i) =~= seq![t.subrange(i, t.len() as int)]);
        assert(colon_pieces(s, i) =~= colon_pieces(t, i) + seq![s.skip(rc + 1)]);
    }
}

/// Read a dotted decimal quad.
fn parse_quad(v: &Vec<char>) -> (r: Option<[u8; 4]>)
    ensures
        match r {
            Some(q) => v4_quad_of(v@) == Some(q@),
            None => v4_quad_of(v@) is None,
        },
{
    let n = v.len();
    let d1 = find_at_or_after(v, '.', 0);
    let d2 = if d1 < n {
        find_at_or_after(v, '.', d1 + 1)
    } else {
        n
    };
    let d3 = if d2 < n {
        find_at_or_after(v, '.', d2 + 1)
    } else {
        n
    };
    if !(d1 < n && d2 < n && d3 < n) {
        return None;
    }
    if find_at_or_after(v, '.', d3 + 1) != n {
        return None;
    }
    proof {
        assert(v@.take(d1 as int) =~= v@.subrange(0, d1 as int));
        assert(v@.skip(d3 + 1) =~= v@.subrange(d3 + 1, n as int));
    }
    let o0 = parse_octet(v, 0, d1);
    let o1 = parse_octet(v, d1 + 1, d2);
    let o2 = parse_octet(v, d2 + 1, d3);
    let o3 = parse_octet(v, d3 + 1, n);
    match (o0, o1, o2, o3) {
        (Some(a), Some(b), Some(c), Some(d)) => {
            let q: [u8; 4] = [a, b, c, d];
            proof {
                assert(q@ =~= v4_quad_of(v@)->Some_0);
            }
            Some(q)
        },
        _ => None,
    }
}

/// Read every colon-separated group, the last of which may be a dotted quad.
fn parse_groups_tail(v: &Vec<char>) -> (r: Option<Vec<u16>>)
    ensures
        match r {
            Some(g) => groups_with_tail(colon_pieces(v@, 0)) == Some(g@),
            None => groups_with_tail(colon_pieces(v@, 0)) is None,
        },
{
    let (mut out, last): (Vec<u16>, Vec<char>) = match find_before(v, ':', v.len()) {
        None => {
            proof {
                lemma_char_before_props(v@, ':', v@.len() as int);
                lemma_char_at_or_after_none(v@, ':', 0);
                assert(colon_pieces(v@, 0) =~= seq![v@.subrange(0, v@.len() as int)]);
                assert(colon_pieces(v@, 0).drop_last() =~= Seq::<Seq<char>>::empty());
                assert(colon_pieces(v@, 0).last() =~= v@);
            }
            (Vec::new(), crate::http::chars_range(v, 0, v.len()))
        },
        Some(rc) => {
            proof {
                lemma_char_before_props(v@, ':', v@.len() as int);
                lemma_pieces_split(v@, 0, rc as int);
                assert(colon_pieces(v@, 0).drop_last() =~= colon_pieces(v@.take(rc as int), 0));
                assert(colon_pieces(v@, 0).last() == v@.skip(rc + 1));
            }
            let prefix = crate::http::chars_range(v, 0, rc);
            proof {
                assert(prefix@ =~= v@.take(rc as int));
            }
            let g = match parse_groups(&prefix) {
                Some(g) => g,
                None => {
                    return None;
                },
            };
            (g, crate::http::chars_range(v, rc + 1, v.len()))
        },
    };
    proof {
        assert(last@ =~= colon_pieces(v@, 0).last());
        assert(last@.subrange(0, last@.len() as int) =~= last@);
    }
    let ghost head = out@;
    match parse_group(&last, 0, last.len()) {
        Some(x) => {
            out.push(x);
            proof {
                assert(out@ =~= head + seq![x]);
            }
            Some(out)
        },
        None => match parse_quad(&last) {
            Some(q) => {
                let s0 = (q[0] as u16) * 256 + (q[1] as u16);
                let s1 = (q[2] as u16) * 256 + (q[3] as u16);
                out.push(s0);
                out.push(s1);
                proof {
                    assert(out@ =~= head + seq![s0, s1]);
                }
                Some(out)
            },
            None => None,
        },
    }
}

/// Find a double colon in `v` at or after `i`.
fn double_colon_find(v: &Vec<char>, i: usize) -> (r: usize)
    requires
        i <= v@.len(),
    ensures
        r == double_colon_at(v@, i as int),
        i <= r <= v@.len(),
        r < v@.len() ==> r + 2 <= v@.len(),
    decreases v@.len() - i,
{
    let n = v.len();
    if n == 0 || i >= n - 1 {
        n
    } else if v[i] == ':' && v[i + 1] == ':' {
        i
    } else {
        double_colon_find(v, i + 1)
    }
}

/// The high byte of a big-endian segment.
fn seg_hi(g: u16) -> (r: u8)
    ensures
        r == g / 256,
{
    (g / 256) as u8
}

/// The low byte of a big-endian segment.
fn seg_lo(g: u16) -> (r: u8)
    ensures
        r == g % 256,
{
    (g % 256) as u8
}

/// Read a version-six address text into its sixteen bytes.
#[verifier::rlimit(50)]
fn parse_v6(v: &Vec<char>) -> (r: Option<[u8; 16]>)
    ensures
        match r {
            Some(ip) => v6_segments_of(v@) matches Some(g) && ip@ == segs_to_bytes(g),
            None => v6_segments_of(v@) is None,
        },
{
    let dc = double_colon_find(v, 0);
    let segs: Vec<u16> = if dc == v.len() {
        match parse_groups_tail(v) {
            Some(g) => {
                if g.len() != 8 {
                    return None;
                }
                g
            },
            None => {
                return None;
            },
        }
    } else {
        let left = crate::http::chars_range(v, 0, dc);
        let right = crate::http::chars_range(v, dc + 2, v.len());
        proof {
            assert(left@ =~= v@.take(dc as int));
            assert(right@ =~= v@.skip(dc + 2));
        }
        let lg: Vec<u16> = if left.len() == 0 {
            Vec::new()
        } else {
            match parse_groups(&left) {
                Some(g) => g,
                None => {
                    return None;
                },
            }
        };
        let rg: Vec<u16> = if right.len() == 0 {
            Vec::new()
        } else {
            match parse_groups_tail(&right) {
                Some(g) => g,
                None => {
                    return None;
                },
            }
        };
        if lg.len() > 7 {
            return None;
        }
        if rg.len() > 7 - lg.len() {
            return None;
        }
        let fill = 8 - lg.len() - rg.len();
        let ghost lgs = lg@;
        let ghost rgs = rg@;
        let ghost zeros = Seq::new((8 - lgs.len() - rgs.len()) as nat, |i: int| 0u16);
        proof {
            assert(v6_segments_of(v@) == Some(lgs + zeros + rgs));
        }
        let mut segs = lg;
        let mut k: usize = 0;
        while k < fill
            invariant
                k <= fill,
                fill == 8 - lgs.len() - rgs.len(),
                lgs.len() + rgs.len() <= 7,
                zeros == Seq::new((8 - lgs.len() - rgs.len()) as nat, |i: int| 0u16),
                segs@ == lgs + Seq::new(k as nat, |i: int| 0u16),
            decreases fill - k,
        {
            segs.push(0);
            proof {
                assert(segs@ =~= lgs + Seq::new((k + 1) as nat, |i: int| 0u16));
            }
            k += 1;
        }
        let mut j: usize = 0;
        while j < rg.len()
            invariant
                j <= rgs.len(),
                rgs == rg@,
                fill == 8 - lgs.len() - rgs.len(),
                lgs.len() + rgs.len() <= 7,
                zeros == Seq::new((8 - lgs.len() - rgs.len()) as nat, |i: int| 0u16),
                segs@ == lgs + zeros + rgs.take(j as int),
            decreases rgs.len() - j,
        {
            segs.push(rg[j]);
            proof {
                assert(segs@ =~= lgs + zeros + rgs.take(j + 1));
            }
            j += 1;
        }
        proof {
            assert(rgs.take(j as int) =~= rgs);
            assert(segs@ =~= v6_segments_of(v@)->Some_0);
        }
        segs
    };
    proof {
        assert(segs@ == v6_segments_of(v@)->Some_0);
        assert(segs@.len() == 8);
    }
    let ip: [u8; 16] = [
        seg_hi(segs[0]),
        seg_lo(segs[0]),
        seg_hi(segs[1]),
        seg_lo(segs[1]),
        seg_hi(segs[2]),
        seg_lo(segs[2]),
        seg_hi(segs[3]),
        seg_lo(segs[3]),
        seg_hi(segs[4]),
        seg_lo(segs[4]),
        seg_hi(segs[5]),
        seg_lo(segs[5]),
        seg_hi(segs[6]),
        seg_lo(segs[6]),
        seg_hi(segs[7]),
        seg_lo(segs[7]),
    ];
    proof {
        assert(ip@ =~= segs_to_bytes(segs@));
    }
    Some(ip)
}

impl Address {
    /// Parse `host:port`, a dotted-decimal socket address, or a bracketed
    /// version-six socket address. The rightmost colon splits host from
    /// port.
    pub fn parse_addr(s: &str) -> (r: Result<Address, InvalidAddress>)
        ensures
            match r {
                Ok(a) => addr_from_chars(s@) == Some(a@),
                Err(_) => addr_from_chars(s@) is None,
            },
    {
        let v = crate::http::string_chars(s);
        let c = find_at_or_after(&v, ':', 0);
        if c < v.len() && find_at_or_after(&v, ':', c + 1) == v.len() {
            let ghost hp = v@.take(c as int);
            let d1 = find_at_or_after_limit(&v, '.', 0, c);
            let d2 = if d1 < c {
                find_at_or_after_limit(&v, '.', d1 + 1, c)
            } else {
                c
            };
            let d3 = if d2 < c {
                find_at_or_after_limit(&v, '.', d2 + 1, c)
            } else {
                c
            };
            if d1 < c && d2 < c && d3 < c && find_at_or_after_limit(&v, '.', d3 + 1, c) == c {
                let o0 = parse_octet(&v, 0, d1);
                let o1 = parse_octet(&v, d1 + 1, d2);
                let o2 = parse_octet(&v, d2 + 1, d3);
                let o3 = parse_octet(&v, d3 + 1, c);
                let ptxt = crate::http::chars_range(&v, c + 1, v.len());
                let port = if v.len() > c + 1 && ptxt[0] == '+' {
                    None
                } else {
                    parse_u16(&ptxt)
                };
                proof {
                    assert(hp.take(d1 as int) =~= v@.subrange(0, d1 as int));
                    assert(hp.subrange(d1 + 1, d2 as int) =~= v@.subrange(d1 + 1, d2 as int));
                    assert(hp.subrange(d2 + 1, d3 as int) =~= v@.subrange(d2 + 1, d3 as int));
                    assert(hp.skip(d3 + 1) =~= v@.subrange(d3 + 1, c as int));
                    assert(ptxt@ =~= v@.skip(c + 1));
                    if v@.len() > c + 1 && v@.skip(c + 1)[0] == '+' {
                        assert(sock_port_value(v@.skip(c + 1)) is None);
                    }
                    if v@.len() == c + 1 {
                        assert(u16_from_chars(v@.skip(c + 1)) is None);
                    }
                }
                match (o0, o1, o2, o3, port) {
                    (Some(a), Some(b), Some(cc), Some(d), Some(p)) => {
                        proof {
                            assert(seq![a, b, cc, d] =~= (sock_v4_of(
                                v@,
                            )->Some_0)->V4_ip);
                        }
                        return Ok(
                            Address::Sock(
                                SockAddrParts { ip: IpBytes::V4([a, b, cc, d]), port: p },
                            ),
                        );
                    },
                    _ => {},
                }
            }
        }
        if v.len() >= 2 && v[0] == '[' {
            let q = find_at_or_after(&v, ']', 0);
            if q < v.len() && q + 1 < v.len() && v[q + 1] == ':' {
                proof {
                    // the opening bracket is no closing one, so the first
                    // closing bracket stands past it
                    assert(v@[0] != ']');
                    lemma_char_at_or_after(v@, ']', 1);
                    assert(q >= 1);
                }
                let inner = crate::http::chars_range(&v, 1, q);
                let ptxt = crate::http::chars_range(&v, q + 2, v.len());
                proof {
                    assert(inner@ =~= v@.subrange(1, q as int));
                    assert(ptxt@ =~= v@.skip(q + 2));
                }
                let port = if ptxt.len() > 0 && ptxt[0] == '+' {
                    None
                } else {
                    parse_u16(&ptxt)
                };
                proof {
                    if v@.skip(q + 2).len() > 0 && v@.skip(q + 2)[0] == '+' {
                        assert(sock_port_value(v@.skip(q + 2)) is None);
                    }
                }
                match (parse_v6(&inner), port) {
                    (Some(ip), Some(p)) => {
                        return Ok(Address::Sock(SockAddrParts { ip: IpBytes::V6(ip), port: p }));
                    },
                    _ => {},
                }
            }
        }
        match find_before(&v, ':', v.len()) {
            Some(rc) if rc >= 1 => {
                let ptxt = crate::http::chars_range(&v, rc + 1, v.len());
                proof {
                    assert(ptxt@ =~= v@.skip(rc + 1));
                }
                match parse_u16(&ptxt) {
                    Some(port) => {
                        let host = crate::http::chars_to_string(&v, 0, rc);
                        proof {
                            assert(host@ =~= v@.take(rc as int));
                        }
                        Ok(Address::Domain(host, port))
                    },
                    None => Err(InvalidAddress),
                }
            },
            _ => Err(InvalidAddress),
        }
    }
}

/// Find `c` in `v[..limit]` at or after `i`.
fn find_at_or_after_limit(v: &Vec<char>, c: char, i: usize, limit: usize) -> (r: usize)
    requires
        i <= limit <= v@.len(),
    ensures
        r == char_at_or_after(v@.take(limit as int), c, i as int),
        i <= r <= limit,
    decreases limit - i,
{
    proof {
        if i < limit {
            assert(v@.take(limit as int)[i as int] == v@[i as int]);
        }
    }
    if i >= limit || v[i] == c {
        i
    } else {
        find_at_or_after_limit(v, c, i + 1, limit)
    }
}

impl core::str::FromStr for Address {
    type Err = InvalidAddress;

    fn from_str(s: &str) -> Result<Address, InvalidAddress> {
        Address::parse_addr(s)
    }
}

} // verus!

//! Link-layer (MAC) and IPv4 addresses: strict parsing and canonical text.
use crate::text::{all_digits, chars_of, digit_value, digits_value, is_digit, split, split_chars, split_from, string_of};
use crate::types::Error;
use vstd::prelude::*;

verus! {

pub open spec fn is_hex(c: char) -> bool {
    ('0' <= c && c <= '9') || ('a' <= c && c <= 'f') || ('A' <= c && c <= 'F')
}

pub open spec fn hex_val(c: char) -> nat {
    if '0' <= c && c <= '9' {
        (c as nat - '0' as nat) as nat
    } else if 'a' <= c && c <= 'f' {
        (c as nat - 'a' as nat + 10) as nat
    } else {
        (c as nat - 'A' as nat + 10) as nat
    }
}

/// The lower-case hexadecimal digit for `n < 16`.
pub open spec fn hex_digit(n: nat) -> char {
    if n < 10 {
        ('0' as nat + n) as char
    } else {
        ('a' as nat + n - 10) as char
    }
}

/// `s` is six groups of two hexadecimal digits separated by `:`.
pub open spec fn mac_shape(s: Seq<char>) -> bool {
    s.len() == 17 && forall|i: int|
        0 <= i < 17 ==> if i % 3 == 2 {
            #[trigger] s[i] == ':'
        } else {
            is_hex(s[i])
        }
}

/// The bytes that the text `s` of a MAC address names, if it is one.
pub open spec fn mac_of(s: Seq<char>) -> Option<Seq<u8>> {
    if mac_shape(s) {
        Some(Seq::new(6, |k: int| (hex_val(s[3 * k]) * 16 + hex_val(s[3 * k + 1])) as u8))
    } else {
        None
    }
}

/// The canonical text of a MAC address: lower-case hex pairs joined by `:`.
pub open spec fn mac_text(b: Seq<u8>) -> Seq<char> {
    Seq::new(
        17,
        |i: int|
            if i % 3 == 2 {
                ':'
            } else if i % 3 == 0 {
                hex_digit((b[i / 3] / 16) as nat)
            } else {
                hex_digit((b[i / 3] % 16) as nat)
            },
    )
}

/// MAC address.
#[derive(Clone, Copy, Debug, PartialEq, Eq)]
pub struct MacAddress {
    pub bytes: [u8; 6],
}

fn hex_digit_exec(n: u8) -> (c: char)
    requires
        n < 16,
    ensures
        c == hex_digit(n as nat),
{
    if n < 10 {
        ((48u8 + n) as char)
    } else {
        ((87u8 + n) as char)
    }
}

fn hex_val_exec(c: char) -> (r: u8)
    requires
        is_hex(c),
    ensures
        r == hex_val(c),
{
    if '0' <= c && c <= '9' {
        (c as u32 - '0' as u32) as u8
    } else if 'a' <= c && c <= 'f' {
        (c as u32 - 'a' as u32 + 10) as u8
    } else {
        (c as u32 - 'A' as u32 + 10) as u8
    }
}

fn is_hex_exec(c: char) -> (r: bool)
    ensures
        r == is_hex(c),
{
    ('0' <= c && c <= '9') || ('a' <= c && c <= 'f') || ('A' <= c && c <= 'F')
}

impl MacAddress {
    /// The all-zero address.
    pub fn default() -> (r: MacAddress)
        ensures
            r.bytes@ == seq![0u8, 0u8, 0u8, 0u8, 0u8, 0u8],
    {
        let r = MacAddress { bytes: [0u8, 0u8, 0u8, 0u8, 0u8, 0u8] };
        assert(r.bytes@ =~= seq![0u8, 0u8, 0u8, 0u8, 0u8, 0u8]);
        r
    }

    pub fn from_chars(s: &[char]) -> (r: Result<MacAddress, Error>)
        ensures
            r is Ok <==> mac_of(s@) is Some,
            r matches Ok(m) ==> Some(m.bytes@) == mac_of(s@),
    {
        if s.len() != 17 {
            return Err(Error::Malformed);
        }
        let mut i: usize = 0;
        while i < 17
            invariant
                s@.len() == 17,
                0 <= i <= 17,
                forall|j: int|
                    0 <= j < i ==> if j % 3 == 2 {
                        #[trigger] s@[j] == ':'
                    } else {
                        is_hex(s@[j])
                    },
            decreases 17 - i,
        {
            if i % 3 == 2 {
                if s[i] != ':' {
                    return Err(Error::Malformed);
                }
            } else if !is_hex_exec(s[i]) {
                return Err(Error::Malformed);
            }
            i = i + 1;
        }
        assert(mac_shape(s@));
        let mut v: Vec<u8> = Vec::new();
        let mut k: usize = 0;
        while k < 6
            invariant
                mac_shape(s@),
                0 <= k <= 6,
                v@.len() == k,
                forall|j: int| 0 <= j < k ==> #[trigger] v@[j] == (hex_val(s@[3 * j]) * 16 + hex_val(s@[3 * j + 1])) as u8,
            decreases 6 - k,
        {
            assert(is_hex(s@[3 * k as int]));
            assert(is_hex(s@[3 * k + 1]));
            let hi = hex_val_exec(s[3 * k]);
            let lo = hex_val_exec(s[3 * k + 1]);
            v.push(hi * 16 + lo);
            k = k + 1;
        }
        let m = MacAddress { bytes: [v[0], v[1], v[2], v[3], v[4], v[5]] };
        assert(m.bytes@ =~= mac_of(s@).unwrap());
        Ok(m)
    }

    /// Parses six colon-separated groups of exactly two hex digits.
    pub fn from_str(s: &str) -> (r: Result<MacAddress, Error>)
        ensures
            r is Ok <==> mac_of(s@) is Some,
            r matches Ok(m) ==> Some(m.bytes@) == mac_of(s@),
    {
        MacAddress::from_chars(chars_of(s).as_slice())
    }

    pub fn to_chars(&self) -> (r: Vec<char>)
        ensures
            r@ == mac_text(self.bytes@),
    {
        let mut r: Vec<char> = Vec::new();
        let mut k: usize = 0;
        while k < 6
            invariant
                0 <= k <= 6,
                r@.len() == (if k == 0 { 0 } else { 3 * k - 1 }),
                forall|i: int| 0 <= i < r@.len() ==> #[trigger] r@[i] == mac_text(self.bytes@)[i],
            decreases 6 - k,
        {
            let b = self.bytes[k];
            if k > 0 {
                r.push(':');
            }
            r.push(hex_digit_exec(b / 16));
            r.push(hex_digit_exec(b % 16));
            k = k + 1;
        }
        assert(r@ =~= mac_text(self.bytes@));
        r
    }

    /// The canonical text, such as `00:1a:2b:3c:4d:5e`.
    pub fn to_string(&self) -> (r: String)
        ensures
            r@ == mac_text(self.bytes@),
    {
        let v = self.to_chars();
        string_of(v.as_slice())
    }
}

/// Whether two MAC addresses have the same bytes.
pub fn same_mac(a: &MacAddress, b: &MacAddress) -> (r: bool)
    ensures
        r == (a.bytes@ == b.bytes@),
{
    let mut i: usize = 0;
    while i < 6
        invariant
            0 <= i <= 6,
            forall|k: int| 0 <= k < i ==> a.bytes@[k] == b.bytes@[k],
        decreases 6 - i,
    {
        if a.bytes[i] != b.bytes[i] {
            return false;
        }
        i = i + 1;
    }
    assert(a.bytes@ =~= b.bytes@);
    true
}

/// Formatting a MAC address and parsing the text gives the address back.
pub proof fn lemma_mac_round_trip(b: [u8; 6])
    ensures
        mac_of(mac_text(b@)) == Some(b@),
{
    let t = mac_text(b@);
    assert forall|i: int| 0 <= i < 17 implies if i % 3 == 2 {
        #[trigger] t[i] == ':'
    } else {
        is_hex(t[i])
    } by {
        if i % 3 != 2 {
            assert(b@[i / 3] / 16 < 16);
            assert(b@[i / 3] % 16 < 16);
        }
    }
    let v = mac_of(t).unwrap();
    assert forall|k: int| 0 <= k < 6 implies v[k] == b@[k] by {
        let x = b@[k];
        assert((3 * k) / 3 == k);
        assert((3 * k + 1) / 3 == k);
        assert((3 * k) % 3 == 0);
        assert((3 * k + 1) % 3 == 1);
        assert(hex_val(hex_digit((x / 16) as nat)) == x / 16);
        assert(hex_val(hex_digit((x % 16) as nat)) == x % 16);
    }
    assert(v =~= b@);
}

/// Pieces joined by the separator `c`.
pub open spec fn join(ps: Seq<Seq<char>>, c: char) -> Seq<char>
    decreases ps.len(),
{
    if ps.len() == 0 {
        seq![]
    } else if ps.len() == 1 {
        ps[0]
    } else {
        ps[0] + seq![c] + join(ps.drop_first(), c)
    }
}

/// Joining the pieces of a split gives the text back.
proof fn lemma_split_join(s: Seq<char>, c: char, start: int, i: int)
    requires
        0 <= start <= i <= s.len(),
    ensures
        join(split_from(s, seq![c], start, i), c) == s.subrange(start, s.len() as int),
    decreases s.len() - i,
{
    let p = seq![c];
    if i + 1 > s.len() {
    } else if crate::text::occurs_at(s, i, p) {
        let rest = split_from(s, p, i + 1, i + 1);
        crate::text::lemma_split_nonempty(s, p, i + 1, i + 1);
        lemma_split_join(s, c, i + 1, i + 1);
        let ps = seq![s.subrange(start, i)] + rest;
        assert(ps.drop_first() == rest);
        assert(s.subrange(i, i + 1)[0] == s[i]);
        assert(s.subrange(start, i) + seq![c] + s.subrange(i + 1, s.len() as int) =~= s.subrange(
            start,
            s.len() as int,
        ));
    } else {
        lemma_split_join(s, c, start, i + 1);
    }
}

/// From group `j` on, a MAC text splits into its two-character groups.
proof fn lemma_mac_split_from(s: Seq<char>, j: int)
    requires
        mac_shape(s),
        0 <= j <= 5,
    ensures
        split_from(s, seq![':'], 3 * j, 3 * j) == Seq::new(
            (6 - j) as nat,
            |k: int| s.subrange(3 * (j + k), 3 * (j + k) + 2),
        ),
    decreases 5 - j,
{
    assert forall|k: int| 3 * j <= k < 3 * j + 2 implies s[k] != ':' by {
        assert(k % 3 != 2);
        assert(is_hex(s[k]));
    }
    let r = Seq::new((6 - j) as nat, |k: int| s.subrange(3 * (j + k), 3 * (j + k) + 2));
    if j < 5 {
        assert(s[3 * j + 2] == ':');
        lemma_split_scan(s, ':', 3 * j, 3 * j, 3 * j + 2);
        lemma_mac_split_from(s, j + 1);
        assert(r =~= seq![s.subrange(3 * j, 3 * j + 2)] + Seq::new(
            (6 - (j + 1)) as nat,
            |k: int| s.subrange(3 * (j + 1 + k), 3 * (j + 1 + k) + 2),
        ));
    } else {
        lemma_split_scan(s, ':', 15, 15, 17);
        assert(r =~= seq![s.subrange(15, 17)]);
    }
}

/// Two-character pieces joined by `:`, from piece `k` on.
proof fn lemma_join_pairs(g: Seq<Seq<char>>, k: int)
    requires
        g.len() == 6,
        forall|m: int| 0 <= m < 6 ==> (#[trigger] g[m]).len() == 2,
        0 <= k <= 5,
    ensures
        join(g.subrange(k, 6), ':') == Seq::new(
            (17 - 3 * k) as nat,
            |i: int| if i % 3 == 2 { ':' } else { g[k + i / 3][i % 3] },
        ),
    decreases 5 - k,
{
    let t = Seq::new((17 - 3 * k) as nat, |i: int| if i % 3 == 2 { ':' } else { g[k + i / 3][i % 3] });
    if k == 5 {
        assert(join(g.subrange(5, 6), ':') == g[5]);
        assert(g[5] =~= t);
    } else {
        lemma_join_pairs(g, k + 1);
        assert(g.subrange(k, 6).drop_first() == g.subrange(k + 1, 6));
        let rest = join(g.subrange(k + 1, 6), ':');
        let j = g[k] + seq![':'] + rest;
        assert(join(g.subrange(k, 6), ':') == j);
        assert forall|i: int| 0 <= i < t.len() implies j[i] == t[i] by {
            if i >= 3 {
                assert(j[i] == rest[i - 3]);
                assert((i - 3) % 3 == i % 3);
                assert((i - 3) / 3 == i / 3 - 1);
            }
        }
        assert(j =~= t);
    }
}

/// Six groups of two hexadecimal digits each.
pub open spec fn mac_groups_ok(g: Seq<Seq<char>>) -> bool {
    g.len() == 6 && forall|k: int|
        0 <= k < 6 ==> (#[trigger] g[k]).len() == 2 && is_hex(g[k][0]) && is_hex(g[k][1])
}

/// The text of a MAC address is what splitting on `:` says it is: exactly
/// six groups, each of exactly two hexadecimal digits; the bytes are the
/// groups' values. A wrong group count, a group of another width or a
/// group that is not hexadecimal makes the parse fail.
pub proof fn lemma_mac_groups(s: Seq<char>)
    ensures
        mac_of(s) is Some <==> mac_groups_ok(split(s, ":"@)),
        mac_of(s) is Some ==> forall|k: int|
            0 <= k < 6 ==> #[trigger] mac_of(s).unwrap()[k] == (hex_val(split(s, ":"@)[k][0]) * 16
                + hex_val(split(s, ":"@)[k][1])) as u8,
{
    reveal_strlit(":");
    assert(":"@ =~= seq![':']);
    let g = split(s, seq![':']);
    if mac_shape(s) {
        lemma_mac_split_from(s, 0);
        assert(g =~= Seq::new(6, |k: int| s.subrange(3 * k, 3 * k + 2)));
        assert forall|k: int| 0 <= k < 6 implies (#[trigger] g[k]).len() == 2 && is_hex(g[k][0])
            && is_hex(g[k][1]) && mac_of(s).unwrap()[k] == (hex_val(g[k][0]) * 16 + hex_val(
            g[k][1],
        )) as u8 by {
            assert(g[k][0] == s[3 * k]);
            assert(g[k][1] == s[3 * k + 1]);
            assert((3 * k) % 3 == 0);
            assert((3 * k + 1) % 3 == 1);
        }
    }
    if mac_groups_ok(g) {
        lemma_split_join(s, ':', 0, 0);
        assert(s.subrange(0, s.len() as int) == s);
        let t = Seq::new(17, |i: int| if i % 3 == 2 { ':' } else { g[i / 3][i % 3] });
        lemma_join_pairs(g, 0);
        assert(g.subrange(0, 6) == g);
        assert(mac_shape(s)) by {
            assert forall|i: int| 0 <= i < 17 implies if i % 3 == 2 {
                #[trigger] s[i] == ':'
            } else {
                is_hex(s[i])
            } by {
                assert(s[i] == t[i]);
            }
        }
    }
}

/// The decimal digits of `x`, without leading zeros.
pub open spec fn dec_text(x: u8) -> Seq<char> {
    if x < 10 {
        seq![hex_digit(x as nat)]
    } else if x < 100 {
        seq![hex_digit((x / 10) as nat), hex_digit((x % 10) as nat)]
    } else {
        seq![hex_digit((x / 100) as nat), hex_digit(((x / 10) % 10) as nat), hex_digit((x % 10) as nat)]
    }
}

/// The canonical text of an IPv4 address: four decimal groups joined by `.`.
pub open spec fn ipv4_text(b: Seq<u8>) -> Seq<char> {
    dec_text(b[0]) + seq!['.'] + dec_text(b[1]) + seq!['.'] + dec_text(b[2]) + seq!['.'] + dec_text(
        b[3],
    )
}

/// A group of an IPv4 address: one to three decimal digits, at most 255.
pub open spec fn ipv4_group(g: Seq<char>) -> bool {
    1 <= g.len() <= 3 && all_digits(g) && digits_value(g) <= 255
}

/// The bytes that the text `s` of an IPv4 address names, if it is one.
pub open spec fn ipv4_of(s: Seq<char>) -> Option<Seq<u8>> {
    let g = split(s, seq!['.']);
    if g.len() == 4 && forall|k: int| 0 <= k < 4 ==> ipv4_group(#[trigger] g[k]) {
        Some(Seq::new(4, |k: int| digits_value(g[k]) as u8))
    } else {
        None
    }
}

/// IPv4 address.
#[derive(Clone, Copy, Debug, PartialEq, Eq)]
pub struct IPv4Address {
    pub bytes: [u8; 4],
}

fn group_value(g: &[char]) -> (r: Option<u8>)
    ensures
        r is Some <==> ipv4_group(g@),
        r matches Some(v) ==> v == digits_value(g@),
{
    if g.len() < 1 || g.len() > 3 {
        return None;
    }
    let mut v: u32 = 0;
    let mut i: usize = 0;
    while i < g.len()
        invariant
            1 <= g@.len() <= 3,
            0 <= i <= g@.len(),
            forall|k: int| 0 <= k < i ==> is_digit(#[trigger] g@[k]),
            v == digits_value(g@.subrange(0, i as int)),
            i == 0 ==> v == 0,
            i == 1 ==> v < 10,
            i == 2 ==> v < 100,
            i == 3 ==> v < 1000,
        decreases g@.len() - i,
    {
        let c = g[i];
        if !('0' <= c && c <= '9') {
            return None;
        }
        assert(g@.subrange(0, i + 1).drop_last() == g@.subrange(0, i as int));
        v = v * 10 + (c as u32 - '0' as u32);
        i = i + 1;
    }
    assert(g@.subrange(0, g@.len() as int) == g@);
    if v > 255 {
        None
    } else {
        Some(v as u8)
    }
}

fn push_dec(r: &mut Vec<char>, x: u8)
    ensures
        final(r)@ == old(r)@ + dec_text(x),
{
    if x >= 100 {
        r.push(hex_digit_exec(x / 100));
        r.push(hex_digit_exec((x / 10) % 10));
        r.push(hex_digit_exec(x % 10));
    } else if x >= 10 {
        r.push(hex_digit_exec(x / 10));
        r.push(hex_digit_exec(x % 10));
    } else {
        r.push(hex_digit_exec(x));
    }
}

impl IPv4Address {
    /// The address `0.0.0.0`.
    pub fn default() -> (r: IPv4Address)
        ensures
            r.bytes@ == seq![0u8, 0u8, 0u8, 0u8],
    {
        let r = IPv4Address { bytes: [0u8, 0u8, 0u8, 0u8] };
        assert(r.bytes@ =~= seq![0u8, 0u8, 0u8, 0u8]);
        r
    }

    pub fn from_chars(s: &[char]) -> (r: Result<IPv4Address, Error>)
        ensures
            r is Ok <==> ipv4_of(s@) is Some,
            r matches Ok(a) ==> Some(a.bytes@) == ipv4_of(s@),
    {
        proof {
            reveal_strlit(".");
            assert("."@ =~= seq!['.']);
        }
        let g = split_chars(s, ".");
        let ghost gv = g@.map_values(|x: Vec<char>| x@);
        assert(gv == split(s@, seq!['.']));
        if g.len() != 4 {
            return Err(Error::Malformed);
        }
        let mut v: Vec<u8> = Vec::new();
        let mut k: usize = 0;
        while k < 4
            invariant
                gv == g@.map_values(|x: Vec<char>| x@),
                gv == split(s@, seq!['.']),
                gv.len() == 4,
                0 <= k <= 4,
                v@.len() == k,
                forall|j: int| 0 <= j < k ==> ipv4_group(#[trigger] gv[j]),
                forall|j: int| 0 <= j < k ==> #[trigger] v@[j] == digits_value(gv[j]) as u8,
            decreases 4 - k,
        {
            assert(g[k as int]@ == gv[k as int]);
            match group_value(g[k].as_slice()) {
                Some(x) => v.push(x),
                None => {
                    assert(!ipv4_group(gv[k as int]));
                    return Err(Error::Malformed);
                },
            }
            k = k + 1;
        }
        let a = IPv4Address { bytes: [v[0], v[1], v[2], v[3]] };
        assert(a.bytes@ =~= ipv4_of(s@).unwrap());
        Ok(a)
    }

    /// Parses four dot-separated groups of one to three decimal digits.
    pub fn from_str(s: &str) -> (r: Result<IPv4Address, Error>)
        ensures
            r is Ok <==> ipv4_of(s@) is Some,
            r matches Ok(a) ==> Some(a.bytes@) == ipv4_of(s@),
    {
        IPv4Address::from_chars(chars_of(s).as_slice())
    }

    pub fn to_chars(&self) -> (r: Vec<char>)
        ensures
            r@ == ipv4_text(self.bytes@),
    {
        let mut r: Vec<char> = Vec::new();
        push_dec(&mut r, self.bytes[0]);
        r.push('.');
        push_dec(&mut r, self.bytes[1]);
        r.push('.');
        push_dec(&mut r, self.bytes[2]);
        r.push('.');
        push_dec(&mut r, self.bytes[3]);
        assert(r@ =~= ipv4_text(self.bytes@));
        r
    }

    /// The canonical text, such as `192.168.1.1`.
    pub fn to_string(&self) -> (r: String)
        ensures
            r@ == ipv4_text(self.bytes@),
    {
        let v = self.to_chars();
        string_of(v.as_slice())
    }
}

/// Scanning a stretch without the separator reaches the next separator, or
/// the end, as one piece.
proof fn lemma_split_scan(s: Seq<char>, c: char, start: int, i: int, j: int)
    requires
        0 <= start <= i <= j <= s.len(),
        forall|k: int| i <= k < j ==> s[k] != c,
        j == s.len() || s[j] == c,
    ensures
        split_from(s, seq![c], start, i) == if j == s.len() {
            seq![s.subrange(start, s.len() as int)]
        } else {
            seq![s.subrange(start, j)] + split_from(s, seq![c], j + 1, j + 1)
        },
    decreases j - i,
{
    let p = seq![c];
    if i < j {
        assert(s.subrange(i, i + 1)[0] == s[i]);
        assert(!occurs_at_one(s, i, c));
        lemma_split_scan(s, c, start, i + 1, j);
    } else if j < s.len() {
        assert(s.subrange(j, j + 1) =~= p);
    }
}

spec fn occurs_at_one(s: Seq<char>, i: int, c: char) -> bool {
    crate::text::occurs_at(s, i, seq![c])
}

/// Three pieces without `.` and a fourth, joined by `.`, split back into
/// those four pieces.
proof fn lemma_split_dots(a: Seq<char>, b: Seq<char>, c: Seq<char>, d: Seq<char>)
    requires
        forall|k: int| 0 <= k < a.len() ==> a[k] != '.',
        forall|k: int| 0 <= k < b.len() ==> b[k] != '.',
        forall|k: int| 0 <= k < c.len() ==> c[k] != '.',
        forall|k: int| 0 <= k < d.len() ==> d[k] != '.',
    ensures
        split(a + seq!['.'] + b + seq!['.'] + c + seq!['.'] + d, seq!['.']) == seq![a, b, c, d],
{
    let s = a + seq!['.'] + b + seq!['.'] + c + seq!['.'] + d;
    let j1 = a.len() as int;
    let j2 = j1 + 1 + b.len();
    let j3 = j2 + 1 + c.len();
    assert forall|k: int| 0 <= k < j1 implies s[k] != '.' by {
        assert(s[k] == a[k]);
    }
    assert(s[j1] == '.');
    lemma_split_scan(s, '.', 0, 0, j1);
    assert forall|k: int| j1 + 1 <= k < j2 implies s[k] != '.' by {
        assert(s[k] == b[k - j1 - 1]);
    }
    assert(s[j2] == '.');
    lemma_split_scan(s, '.', j1 + 1, j1 + 1, j2);
    assert forall|k: int| j2 + 1 <= k < j3 implies s[k] != '.' by {
        assert(s[k] == c[k - j2 - 1]);
    }
    assert(s[j3] == '.');
    lemma_split_scan(s, '.', j2 + 1, j2 + 1, j3);
    assert forall|k: int| j3 + 1 <= k < s.len() implies s[k] != '.' by {
        assert(s[k] == d[k - j3 - 1]);
    }
    lemma_split_scan(s, '.', j3 + 1, j3 + 1, s.len() as int);
    assert(s.subrange(0, j1) =~= a);
    assert(s.subrange(j1 + 1, j2) =~= b);
    assert(s.subrange(j2 + 1, j3) =~= c);
    assert(s.subrange(j3 + 1, s.len() as int) =~= d);
}

proof fn lemma_dec_group(x: u8)
    ensures
        ipv4_group(dec_text(x)),
        digits_value(dec_text(x)) == x,
        forall|k: int| 0 <= k < dec_text(x).len() ==> dec_text(x)[k] != '.',
{
    let t = dec_text(x);
    assert forall|n: nat| n < 10 implies is_digit(#[trigger] hex_digit(n)) && digit_value(hex_digit(n)) == n
        && hex_digit(n) != '.' by {}
    if x < 10 {
        assert(t.drop_last().len() == 0);
        assert(digits_value(t) == digits_value(t.drop_last()) * 10 + digit_value(t.last()));
    } else if x < 100 {
        let t1 = t.drop_last();
        assert(t1 =~= seq![hex_digit((x / 10) as nat)]);
        assert(t1.drop_last().len() == 0);
        assert(digits_value(t1) == digits_value(t1.drop_last()) * 10 + digit_value(t1.last()));
        assert(digits_value(t) == digits_value(t1) * 10 + digit_value(t.last()));
    } else {
        assert(x / 100 < 10);
        let t1 = t.drop_last();
        let t2 = t1.drop_last();
        assert(t1 =~= seq![hex_digit((x / 100) as nat), hex_digit(((x / 10) % 10) as nat)]);
        assert(t2 =~= seq![hex_digit((x / 100) as nat)]);
        assert(t2.drop_last().len() == 0);
        assert(digits_value(t2) == digits_value(t2.drop_last()) * 10 + digit_value(t2.last()));
        assert(digits_value(t1) == digits_value(t2) * 10 + digit_value(t1.last()));
        assert(digits_value(t) == digits_value(t1) * 10 + digit_value(t.last()));
        assert((x / 100) * 100 + ((x / 10) % 10) * 10 + x % 10 == x);
    }
    assert(all_digits(t));
}

/// Formatting an IPv4 address and parsing the text gives the address back.
pub proof fn lemma_ipv4_round_trip(b: [u8; 4])
    ensures
        ipv4_of(ipv4_text(b@)) == Some(b@),
{
    let v = b@;
    lemma_dec_group(v[0]);
    lemma_dec_group(v[1]);
    lemma_dec_group(v[2]);
    lemma_dec_group(v[3]);
    lemma_split_dots(dec_text(v[0]), dec_text(v[1]), dec_text(v[2]), dec_text(v[3]));
    let g = split(ipv4_text(v), seq!['.']);
    assert(g == seq![dec_text(v[0]), dec_text(v[1]), dec_text(v[2]), dec_text(v[3])]);
    assert forall|k: int| 0 <= k < 4 implies ipv4_group(#[trigger] g[k]) by {}
    assert(ipv4_of(ipv4_text(v)).unwrap() =~= v);
}

} // verus!

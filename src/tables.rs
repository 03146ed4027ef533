//! Parsers for the `|`-delimited tables: VLANs, the MAC address table and
//! LLDP neighbors. A line with too few columns, or a header line, is
//! skipped; every other line must parse, or the whole table fails.
use crate::addr::{mac_of, same_mac, MacAddress};
use crate::text::{
    chars_of, i32_of, is_lit, parse_i32, parse_uint, remove_all, remove_lit, slice_of, split, split_chars,
    string_of, trim, trim_chars, uint_of,
};
use crate::types::{caps_of, Error, LLDPCap, MacEntryType, SFPStatus, VLANType};
use vstd::prelude::*;

verus! {

/// The lines of a response.
pub open spec fn lines_of(data: Seq<char>) -> Seq<Seq<char>> {
    split(data, "\n"@)
}

/// Column `k` of a `|`-delimited line, trimmed.
pub open spec fn col(line: Seq<char>, k: int) -> Seq<char> {
    trim(split(line, "|"@)[k])
}

pub open spec fn ncols(line: Seq<char>) -> int {
    split(line, "|"@).len() as int
}

pub proof fn lemma_filter_step(lines: Seq<Seq<char>>, i: int, f: spec_fn(Seq<char>) -> bool)
    requires
        0 <= i < lines.len(),
    ensures
        lines.subrange(0, i + 1).filter(f) == if f(lines[i]) {
            lines.subrange(0, i).filter(f).push(lines[i])
        } else {
            lines.subrange(0, i).filter(f)
        },
{
    assert(lines.subrange(0, i + 1).drop_last() == lines.subrange(0, i));
    reveal_with_fuel(Seq::filter, 1);
}

pub(crate) fn lines_exec(data: &str) -> (r: Vec<Vec<char>>)
    ensures
        r@.map_values(|x: Vec<char>| x@) == lines_of(data@),
{
    proof {
        reveal_strlit("\n");
    }
    let d = chars_of(data);
    split_chars(d.as_slice(), "\n")
}

/// The trimmed columns of a line split on `|`.
pub(crate) fn columns(line: &[char]) -> (r: Vec<Vec<char>>)
    ensures
        r@.len() == ncols(line@),
        forall|k: int| 0 <= k < r@.len() ==> #[trigger] r@[k]@ == col(line@, k),
{
    proof {
        reveal_strlit("|");
    }
    let e = split_chars(line, "|");
    let ghost ev = e@.map_values(|x: Vec<char>| x@);
    let mut r: Vec<Vec<char>> = Vec::new();
    let mut k: usize = 0;
    while k < e.len()
        invariant
            ev == e@.map_values(|x: Vec<char>| x@),
            ev == split(line@, "|"@),
            0 <= k <= e@.len(),
            r@.len() == k,
            forall|j: int| 0 <= j < k ==> #[trigger] r@[j]@ == col(line@, j),
        decreases e@.len() - k,
    {
        assert(e@[k as int]@ == ev[k as int]);
        r.push(trim_chars(e[k].as_slice()));
        k = k + 1;
    }
    r
}

/// VLAN information.
#[derive(Clone, Debug)]
pub struct VLANInfo {
    /// VLAN ID
    pub id: u32,
    /// VLAN name
    pub name: String,
    /// List of untagged ports in VLAN
    pub ports_untagged: String,
    /// List of tagged ports in VLAN
    pub ports_tagged: String,
    /// VLAN type
    pub vlan_type: VLANType,
}

pub open spec fn vlan_row(line: Seq<char>) -> bool {
    ncols(line) >= 5 && col(line, 0) != "VID"@
}

pub open spec fn vlan_rows(lines: Seq<Seq<char>>) -> Seq<Seq<char>> {
    lines.filter(|l: Seq<char>| vlan_row(l))
}

pub open spec fn vlan_ok(line: Seq<char>) -> bool {
    uint_of(col(line, 0), 0xffff_ffff) is Some && VLANType::of(col(line, 4)) is Some
}

pub open spec fn vlan_from(v: VLANInfo, line: Seq<char>) -> bool {
    &&& Some(v.id as nat) == uint_of(col(line, 0), 0xffff_ffff)
    &&& v.name@ == col(line, 1)
    &&& v.ports_untagged@ == col(line, 2)
    &&& v.ports_tagged@ == col(line, 3)
    &&& Some(v.vlan_type) == VLANType::of(col(line, 4))
}

/// Parses the answer to `show vlan`.
pub fn parse_vlan_info(data: &str) -> (r: Result<Vec<VLANInfo>, Error>)
    ensures
        r is Ok <==> (forall|i: int|
            0 <= i < lines_of(data@).len() && vlan_row(#[trigger] lines_of(data@)[i]) ==> vlan_ok(
                lines_of(data@)[i],
            )),
        r matches Ok(v) ==> v@.len() == vlan_rows(lines_of(data@)).len() && forall|i: int|
            0 <= i < v@.len() ==> vlan_from(#[trigger] v@[i], vlan_rows(lines_of(data@))[i]),
{
    let lines = lines_exec(data);
    let ghost lv = lines_of(data@);
    let mut out: Vec<VLANInfo> = Vec::new();
    let mut i: usize = 0;
    while i < lines.len()
        invariant
            lv == lines@.map_values(|x: Vec<char>| x@),
            lv == lines_of(data@),
            0 <= i <= lv.len(),
            forall|j: int| 0 <= j < i && vlan_row(#[trigger] lv[j]) ==> vlan_ok(lv[j]),
            out@.len() == vlan_rows(lv.subrange(0, i as int)).len(),
            forall|j: int| 0 <= j < out@.len() ==> vlan_from(#[trigger] out@[j], vlan_rows(lv.subrange(0, i as int))[j]),
        decreases lv.len() - i,
    {
        proof {
            lemma_filter_step(lv, i as int, |l: Seq<char>| vlan_row(l));
        }
        let line = lines[i].as_slice();
        assert(line@ == lv[i as int]);
        let e = columns(line);
        if e.len() < 5 || is_lit(e[0].as_slice(), "VID") {
            i = i + 1;
            continue;
        }
        let id = match parse_uint(e[0].as_slice(), 0xffff_ffff) {
            Some(x) => x as u32,
            None => {
                return Err(Error::Malformed);
            },
        };
        let vt = match VLANType::from_chars(e[4].as_slice()) {
            Ok(x) => x,
            Err(x) => {
                return Err(x);
            },
        };
        let v = VLANInfo {
            id,
            name: string_of(e[1].as_slice()),
            ports_untagged: string_of(e[2].as_slice()),
            ports_tagged: string_of(e[3].as_slice()),
            vlan_type: vt,
        };
        out.push(v);
        i = i + 1;
    }
    assert(lv.subrange(0, lv.len() as int) == lv);
    Ok(out)
}

/// How the MAC table treats a line: fewer than four columns, or `VID` in
/// the first, and the line is skipped; four columns or more with a port
/// column that is no number, and the whole table fails.
pub proof fn lemma_mac_table_lines(data: Seq<char>, i: int)
    requires
        0 <= i < lines_of(data).len(),
    ensures
        ncols(lines_of(data)[i]) < 4 ==> !mac_row(lines_of(data)[i]),
        col(lines_of(data)[i], 0) == "VID"@ ==> !mac_row(lines_of(data)[i]),
        mac_row(lines_of(data)[i]) && uint_of(col(lines_of(data)[i], 0), 0xff) is None ==> !(
        forall|j: int|
            0 <= j < lines_of(data).len() && mac_row(#[trigger] lines_of(data)[j]) ==> mac_ok(
                lines_of(data)[j],
            )),
{
}

/// MAC address table entry.
#[derive(Clone, Debug)]
pub struct MacEntry {
    /// VLAN ID
    pub vlan_id: u8,
    /// MAC address
    pub mac_address: MacAddress,
    /// Type of entry (dynamic or static)
    pub entry_type: MacEntryType,
    /// Interfaces with the MAC address
    pub ports: String,
}

pub open spec fn mac_row(line: Seq<char>) -> bool {
    ncols(line) >= 4 && col(line, 0) != "VID"@
}

pub open spec fn mac_rows(lines: Seq<Seq<char>>) -> Seq<Seq<char>> {
    lines.filter(|l: Seq<char>| mac_row(l))
}

pub open spec fn mac_ok(line: Seq<char>) -> bool {
    &&& uint_of(col(line, 0), 0xff) is Some
    &&& mac_of(col(line, 1)) is Some
    &&& MacEntryType::of(col(line, 2)) is Some
}

pub open spec fn mac_from(m: MacEntry, line: Seq<char>) -> bool {
    &&& Some(m.vlan_id as nat) == uint_of(col(line, 0), 0xff)
    &&& Some(m.mac_address.bytes@) == mac_of(col(line, 1))
    &&& Some(m.entry_type) == MacEntryType::of(col(line, 2))
    &&& m.ports@ == col(line, 3)
}

/// Parses one row of the MAC address table.
fn mac_entry(line: &[char]) -> (r: Result<MacEntry, Error>)
    requires
        ncols(line@) >= 4,
    ensures
        r is Ok <==> mac_ok(line@),
        r matches Ok(m) ==> mac_from(m, line@),
{
    let e = columns(line);
    let vlan_id = match parse_uint(e[0].as_slice(), 0xff) {
        Some(x) => x as u8,
        None => {
            return Err(Error::Malformed);
        },
    };
    let mac_address = match MacAddress::from_chars(e[1].as_slice()) {
        Ok(x) => x,
        Err(x) => {
            return Err(x);
        },
    };
    let entry_type = match MacEntryType::from_chars(e[2].as_slice()) {
        Ok(x) => x,
        Err(x) => {
            return Err(x);
        },
    };
    Ok(MacEntry { vlan_id, mac_address, entry_type, ports: string_of(e[3].as_slice()) })
}

fn is_mac_row(line: &[char]) -> (r: bool)
    ensures
        r == mac_row(line@),
{
    let e = columns(line);
    e.len() >= 4 && !is_lit(e[0].as_slice(), "VID")
}

/// Parses the answer to `show mac address-table`, for all ports or one.
pub fn parse_mac_table(data: &str) -> (r: Result<Vec<MacEntry>, Error>)
    ensures
        r is Ok <==> (forall|i: int|
            0 <= i < lines_of(data@).len() && mac_row(#[trigger] lines_of(data@)[i]) ==> mac_ok(
                lines_of(data@)[i],
            )),
        r matches Ok(v) ==> v@.len() == mac_rows(lines_of(data@)).len() && forall|i: int|
            0 <= i < v@.len() ==> mac_from(#[trigger] v@[i], mac_rows(lines_of(data@))[i]),
{
    let lines = lines_exec(data);
    let ghost lv = lines_of(data@);
    let mut out: Vec<MacEntry> = Vec::new();
    let mut i: usize = 0;
    while i < lines.len()
        invariant
            lv == lines@.map_values(|x: Vec<char>| x@),
            lv == lines_of(data@),
            0 <= i <= lv.len(),
            forall|j: int| 0 <= j < i && mac_row(#[trigger] lv[j]) ==> mac_ok(lv[j]),
            out@.len() == mac_rows(lv.subrange(0, i as int)).len(),
            forall|j: int| 0 <= j < out@.len() ==> mac_from(#[trigger] out@[j], mac_rows(lv.subrange(0, i as int))[j]),
        decreases lv.len() - i,
    {
        proof {
            lemma_filter_step(lv, i as int, |l: Seq<char>| mac_row(l));
        }
        let line = lines[i].as_slice();
        assert(line@ == lv[i as int]);
        if !is_mac_row(line) {
            i = i + 1;
            continue;
        }
        let m = mac_entry(line)?;
        out.push(m);
        i = i + 1;
    }
    assert(lv.subrange(0, lv.len() as int) == lv);
    Ok(out)
}

/// A MAC table row names the address `a`.
pub open spec fn mac_hit(line: Seq<char>, a: Seq<u8>) -> bool {
    mac_of(col(line, 1)) == Some(a)
}

/// Parses the MAC address table and selects one address: the first entry
/// with that address, if any.
pub fn parse_mac_lookup(data: &str, address: &MacAddress) -> (r: Result<Option<MacEntry>, Error>)
    ensures
        r is Ok <==> (forall|i: int|
            0 <= i < lines_of(data@).len() && mac_row(#[trigger] lines_of(data@)[i]) ==> mac_ok(
                lines_of(data@)[i],
            )),
        r matches Ok(Some(m)) ==> exists|i: int|
            0 <= i < mac_rows(lines_of(data@)).len() && mac_from(m, mac_rows(lines_of(data@))[i])
                && mac_hit(mac_rows(lines_of(data@))[i], address.bytes@) && forall|j: int|
                0 <= j < i ==> !mac_hit(#[trigger] mac_rows(lines_of(data@))[j], address.bytes@),
        r matches Ok(None) ==> forall|i: int|
            0 <= i < mac_rows(lines_of(data@)).len() ==> !mac_hit(
                #[trigger] mac_rows(lines_of(data@))[i],
                address.bytes@,
            ),
{
    let ghost rows = mac_rows(lines_of(data@));
    let mut v = parse_mac_table(data)?;
    let mut i: usize = 0;
    while i < v.len()
        invariant
            rows == mac_rows(lines_of(data@)),
            forall|k: int|
                0 <= k < lines_of(data@).len() && mac_row(#[trigger] lines_of(data@)[k]) ==> mac_ok(
                    lines_of(data@)[k],
                ),
            v@.len() == rows.len(),
            forall|k: int| 0 <= k < v@.len() ==> mac_from(#[trigger] v@[k], rows[k]),
            0 <= i <= v@.len(),
            forall|j: int| 0 <= j < i ==> !mac_hit(#[trigger] rows[j], address.bytes@),
        decreases v@.len() - i,
    {
        assert(mac_from(v@[i as int], rows[i as int]));
        if same_mac(&v[i].mac_address, address) {
            let m = v.remove(i);
            assert(0 <= i < rows.len() && mac_from(m, rows[i as int]) && mac_hit(rows[i as int], address.bytes@));
            return Ok(Some(m));
        }
        i = i + 1;
    }
    Ok(None)
}

/// The rows kept from the first `i` lines come first among all rows kept.
pub proof fn lemma_filter_prefix(lines: Seq<Seq<char>>, i: int, f: spec_fn(Seq<char>) -> bool)
    requires
        0 <= i <= lines.len(),
    ensures
        lines.subrange(0, i).filter(f).len() <= lines.filter(f).len(),
        forall|j: int|
            0 <= j < lines.subrange(0, i).filter(f).len() ==> #[trigger] lines.subrange(0, i).filter(f)[j]
                == lines.filter(f)[j],
    decreases lines.len() - i,
{
    if i == lines.len() {
        assert(lines.subrange(0, i) == lines);
    } else {
        lemma_filter_prefix(lines, i + 1, f);
        lemma_filter_step(lines, i, f);
        let a = lines.subrange(0, i).filter(f);
        let b = lines.subrange(0, i + 1).filter(f);
        assert forall|j: int| 0 <= j < a.len() implies #[trigger] a[j] == lines.filter(f)[j] by {
            assert(a[j] == b[j]);
        }
    }
}

/// LLDP neighbor information.
#[derive(Clone, Debug)]
pub struct LLDPNeighbor {
    /// Switch interface number
    pub port: u8,
    /// Remote device ID
    pub device_id: String,
    /// Remote port ID
    pub port_id: String,
    /// Remote system name
    pub system_name: String,
    /// Remote system capabilities
    pub caps: LLDPCap,
    /// TTL for the LLDP informations (in seconds)
    pub ttl: u32,
}

pub open spec fn lldp_row(line: Seq<char>) -> bool {
    ncols(line) >= 6 && col(line, 0) != "Port"@
}

pub open spec fn lldp_rows(lines: Seq<Seq<char>>) -> Seq<Seq<char>> {
    lines.filter(|l: Seq<char>| lldp_row(l))
}

pub open spec fn lldp_ok(line: Seq<char>) -> bool {
    &&& caps_of(col(line, 4)) is Some
    &&& uint_of(col(line, 0), 0xff) is Some
    &&& uint_of(col(line, 5), 0xffff_ffff) is Some
}

pub open spec fn lldp_from(n: LLDPNeighbor, line: Seq<char>) -> bool {
    &&& Some(n.port as nat) == uint_of(col(line, 0), 0xff)
    &&& n.device_id@ == col(line, 1)
    &&& n.port_id@ == col(line, 2)
    &&& n.system_name@ == col(line, 3)
    &&& Some(n.caps) == caps_of(col(line, 4))
    &&& Some(n.ttl as nat) == uint_of(col(line, 5), 0xffff_ffff)
}

/// Two neighbor lines whose columns agree except that the capability lists
/// hold the same phrases, in another order or repeated, are accepted or
/// refused together and give the same neighbor.
pub proof fn lemma_lldp_caps_order(l1: Seq<char>, l2: Seq<char>)
    requires
        ncols(l1) == ncols(l2),
        forall|k: int| 0 <= k < ncols(l1) && k != 4 ==> col(l1, k) == col(l2, k),
        split(col(l1, 4), ", "@).to_set() == split(col(l2, 4), ", "@).to_set(),
    ensures
        lldp_row(l1) == lldp_row(l2),
        lldp_row(l1) ==> lldp_ok(l1) == lldp_ok(l2),
        lldp_row(l1) ==> forall|n: LLDPNeighbor| lldp_from(n, l1) == lldp_from(n, l2),
{
    crate::types::lemma_caps_order_and_repeats(split(col(l1, 4), ", "@), split(col(l2, 4), ", "@));
    if ncols(l1) >= 6 {
        assert(col(l1, 0) == col(l2, 0));
        assert(col(l1, 1) == col(l2, 1));
        assert(col(l1, 2) == col(l2, 2));
        assert(col(l1, 3) == col(l2, 3));
        assert(col(l1, 5) == col(l2, 5));
    }
}

/// A neighbor line whose capability list holds an unknown phrase, at any
/// position, is refused.
pub proof fn lemma_lldp_unknown_cap(line: Seq<char>, i: int)
    requires
        lldp_row(line),
        0 <= i < split(col(line, 4), ", "@).len(),
        !crate::types::known_cap(split(col(line, 4), ", "@)[i]),
    ensures
        !lldp_ok(line),
{
    crate::types::lemma_caps_unknown_fails(split(col(line, 4), ", "@), i);
}

fn lldp_neighbor(line: &[char]) -> (r: Result<LLDPNeighbor, Error>)
    requires
        ncols(line@) >= 6,
    ensures
        r is Ok <==> lldp_ok(line@),
        r matches Ok(n) ==> lldp_from(n, line@),
{
    let e = columns(line);
    let caps = match LLDPCap::from_chars(e[4].as_slice()) {
        Ok(x) => x,
        Err(x) => {
            return Err(x);
        },
    };
    let port = match parse_uint(e[0].as_slice(), 0xff) {
        Some(x) => x as u8,
        None => {
            return Err(Error::Malformed);
        },
    };
    let ttl = match parse_uint(e[5].as_slice(), 0xffff_ffff) {
        Some(x) => x as u32,
        None => {
            return Err(Error::Malformed);
        },
    };
    Ok(
        LLDPNeighbor {
            port,
            device_id: string_of(e[1].as_slice()),
            port_id: string_of(e[2].as_slice()),
            system_name: string_of(e[3].as_slice()),
            caps,
            ttl,
        },
    )
}

/// Parses the answer to `show lldp neighbor`.
pub fn parse_lldp_info(data: &str) -> (r: Result<Vec<LLDPNeighbor>, Error>)
    ensures
        r is Ok <==> (forall|i: int|
            0 <= i < lines_of(data@).len() && lldp_row(#[trigger] lines_of(data@)[i]) ==> lldp_ok(
                lines_of(data@)[i],
            )),
        r matches Ok(v) ==> v@.len() == lldp_rows(lines_of(data@)).len() && forall|i: int|
            0 <= i < v@.len() ==> lldp_from(#[trigger] v@[i], lldp_rows(lines_of(data@))[i]),
{
    let lines = lines_exec(data);
    let ghost lv = lines_of(data@);
    let mut out: Vec<LLDPNeighbor> = Vec::new();
    let mut i: usize = 0;
    while i < lines.len()
        invariant
            lv == lines@.map_values(|x: Vec<char>| x@),
            lv == lines_of(data@),
            0 <= i <= lv.len(),
            forall|j: int| 0 <= j < i && lldp_row(#[trigger] lv[j]) ==> lldp_ok(lv[j]),
            out@.len() == lldp_rows(lv.subrange(0, i as int)).len(),
            forall|j: int| 0 <= j < out@.len() ==> lldp_from(#[trigger] out@[j], lldp_rows(lv.subrange(0, i as int))[j]),
        decreases lv.len() - i,
    {
        proof {
            lemma_filter_step(lv, i as int, |l: Seq<char>| lldp_row(l));
        }
        let line = lines[i].as_slice();
        assert(line@ == lv[i as int]);
        let e = columns(line);
        if e.len() < 6 || is_lit(e[0].as_slice(), "Port") {
            i = i + 1;
            continue;
        }
        let n = lldp_neighbor(line)?;
        out.push(n);
        i = i + 1;
    }
    assert(lv.subrange(0, lv.len() as int) == lv);
    Ok(out)
}

/// A fiber reading `"<value>  (<status>)"`: the one-decimal value without
/// its decimal point, which is ten times the reading, and the status
/// without parentheses. A field without the two-space separator is a bare
/// status with value zero.
pub open spec fn fiber_entry(e: Seq<char>) -> Option<(int, Seq<char>)> {
    let sp = split(e, "  "@);
    if sp.len() >= 2 {
        match i32_of(remove_all(sp[0], "."@)) {
            Some(v) => Some((v, remove_all(remove_all(sp[1], "("@), ")"@))),
            None => None,
        }
    } else {
        Some((0, e))
    }
}

fn fiber_entry_chars(e: &[char]) -> (r: Option<(i32, Vec<char>)>)
    ensures
        match fiber_entry(e@) {
            Some((v, st)) => r matches Some((x, t)) && x == v && t@ == st,
            None => r is None,
        },
{
    proof {
        reveal_strlit("  ");
        reveal_strlit(".");
        reveal_strlit("(");
        reveal_strlit(")");
    }
    let sp = split_chars(e, "  ");
    let ghost spv = sp@.map_values(|x: Vec<char>| x@);
    if sp.len() >= 2 {
        assert(sp@[0]@ == spv[0] && sp@[1]@ == spv[1]);
        let dot = chars_of(".");
        let digits = remove_lit(sp[0].as_slice(), dot.as_slice());
        let v = match parse_i32(digits.as_slice()) {
            Some(x) => x,
            None => {
                return None;
            },
        };
        let open = chars_of("(");
        let close = chars_of(")");
        let a = remove_lit(sp[1].as_slice(), open.as_slice());
        let st = remove_lit(a.as_slice(), close.as_slice());
        Some((v, st))
    } else {
        Some((0, slice_of(e, 0, e.len())))
    }
}

/// Splits a fiber reading such as `"25.0  (OK)"` into its scaled value and
/// its status text.
pub fn parse_fiber_entry(entry: &str) -> (r: Result<(i32, String), Error>)
    ensures
        match fiber_entry(entry@) {
            Some((v, st)) => r matches Ok((x, t)) && x == v && t@ == st,
            None => r == Err::<(i32, String), Error>(Error::Malformed),
        },
{
    let e = chars_of(entry);
    match fiber_entry_chars(e.as_slice()) {
        Some((v, st)) => Ok((v, string_of(st.as_slice()))),
        None => Err(Error::Malformed),
    }
}

/// A reading with its status parsed.
pub open spec fn fiber_reading(e: Seq<char>) -> Option<(int, SFPStatus)> {
    match fiber_entry(e) {
        Some((v, st)) => match SFPStatus::of(st) {
            Some(x) => Some((v, x)),
            None => None,
        },
        None => None,
    }
}

fn fiber_reading_chars(e: &[char]) -> (r: Result<(i32, SFPStatus), Error>)
    ensures
        match fiber_reading(e@) {
            Some((v, st)) => r matches Ok((x, t)) && x == v && t == st,
            None => r is Err,
        },
{
    match fiber_entry_chars(e) {
        Some((v, st)) => {
            let s = SFPStatus::from_chars(st.as_slice())?;
            Ok((v, s))
        },
        None => Err(Error::Malformed),
    }
}

/// SFP diagnostic data.
#[derive(Clone, Copy, Debug, PartialEq, Eq, Structural)]
pub struct FiberInfo {
    /// Port Number
    pub port: u8,
    /// Temperature, as shown without its decimal point
    pub temperature: i32,
    /// Temperature status
    pub temperature_status: SFPStatus,
    /// Voltage, as shown without its decimal point
    pub voltage: i32,
    /// Voltage status
    pub voltage_status: SFPStatus,
    /// Current, as shown without its decimal point
    pub current: i32,
    /// Current status
    pub current_status: SFPStatus,
    /// Output power, as shown without its decimal point
    pub output_power: i32,
    /// Output Power status
    pub output_power_status: SFPStatus,
    /// Input power, as shown without its decimal point
    pub input_power: i32,
    /// Input Power status
    pub input_power_status: SFPStatus,
    /// SFP module is present
    pub present: bool,
    /// Link detected?
    pub link: bool,
}

pub open spec fn fiber_row(line: Seq<char>) -> bool {
    ncols(line) >= 8 && col(line, 0) != "Port"@ && col(line, 0) != Seq::<char>::empty()
}

pub open spec fn fiber_rows(lines: Seq<Seq<char>>) -> Seq<Seq<char>> {
    lines.filter(|l: Seq<char>| fiber_row(l))
}

/// A reading that may not be negative: voltage, current and the powers.
pub open spec fn fiber_unsigned(e: Seq<char>) -> bool {
    fiber_reading(e) matches Some((v, _)) && v >= 0
}

pub open spec fn fiber_ok(line: Seq<char>) -> bool {
    &&& fiber_reading(col(line, 1)) is Some
    &&& fiber_unsigned(col(line, 2))
    &&& fiber_unsigned(col(line, 3))
    &&& fiber_unsigned(col(line, 4))
    &&& fiber_unsigned(col(line, 5))
    &&& uint_of(col(line, 0), 0xff) is Some
}

pub open spec fn fiber_from(f: FiberInfo, line: Seq<char>) -> bool {
    &&& Some(f.port as nat) == uint_of(col(line, 0), 0xff)
    &&& Some((f.temperature as int, f.temperature_status)) == fiber_reading(col(line, 1))
    &&& Some((f.voltage as int, f.voltage_status)) == fiber_reading(col(line, 2))
    &&& Some((f.current as int, f.current_status)) == fiber_reading(col(line, 3))
    &&& Some((f.output_power as int, f.output_power_status)) == fiber_reading(col(line, 4))
    &&& Some((f.input_power as int, f.input_power_status)) == fiber_reading(col(line, 5))
    &&& f.present == (col(line, 6) == "Insert"@)
    &&& f.link == (col(line, 7) == "Normal"@)
}

fn fiber_info_row(line: &[char]) -> (r: Result<FiberInfo, Error>)
    requires
        ncols(line@) >= 8,
    ensures
        r is Ok <==> fiber_ok(line@),
        r matches Ok(f) ==> fiber_from(f, line@),
{
    let e = columns(line);
    let (temperature, temperature_status) = fiber_reading_chars(e[1].as_slice())?;
    let (voltage, voltage_status) = fiber_reading_chars(e[2].as_slice())?;
    let (current, current_status) = fiber_reading_chars(e[3].as_slice())?;
    let (output_power, output_power_status) = fiber_reading_chars(e[4].as_slice())?;
    let (input_power, input_power_status) = fiber_reading_chars(e[5].as_slice())?;
    if voltage < 0 || current < 0 || output_power < 0 || input_power < 0 {
        return Err(Error::Malformed);
    }
    let port = match parse_uint(e[0].as_slice(), 0xff) {
        Some(x) => x as u8,
        None => {
            return Err(Error::Malformed);
        },
    };
    Ok(
        FiberInfo {
            port,
            temperature,
            temperature_status,
            voltage,
            voltage_status,
            current,
            current_status,
            output_power,
            output_power_status,
            input_power,
            input_power_status,
            present: is_lit(e[6].as_slice(), "Insert"),
            link: is_lit(e[7].as_slice(), "Normal"),
        },
    )
}

/// Parses the answer to `show fiber-transceiver interfaces all`.
pub fn parse_fiber_info(data: &str) -> (r: Result<Vec<FiberInfo>, Error>)
    ensures
        r is Ok <==> (forall|i: int|
            0 <= i < lines_of(data@).len() && fiber_row(#[trigger] lines_of(data@)[i]) ==> fiber_ok(
                lines_of(data@)[i],
            )),
        r matches Ok(v) ==> v@.len() == fiber_rows(lines_of(data@)).len() && forall|i: int|
            0 <= i < v@.len() ==> fiber_from(#[trigger] v@[i], fiber_rows(lines_of(data@))[i]),
{
    let lines = lines_exec(data);
    let ghost lv = lines_of(data@);
    let mut out: Vec<FiberInfo> = Vec::new();
    let mut i: usize = 0;
    while i < lines.len()
        invariant
            lv == lines@.map_values(|x: Vec<char>| x@),
            lv == lines_of(data@),
            0 <= i <= lv.len(),
            forall|j: int| 0 <= j < i && fiber_row(#[trigger] lv[j]) ==> fiber_ok(lv[j]),
            out@.len() == fiber_rows(lv.subrange(0, i as int)).len(),
            forall|j: int| 0 <= j < out@.len() ==> fiber_from(#[trigger] out@[j], fiber_rows(lv.subrange(0, i as int))[j]),
        decreases lv.len() - i,
    {
        proof {
            lemma_filter_step(lv, i as int, |l: Seq<char>| fiber_row(l));
        }
        let line = lines[i].as_slice();
        assert(line@ == lv[i as int]);
        let e = columns(line);
        if e.len() < 8 || is_lit(e[0].as_slice(), "Port") || e[0].len() == 0 {
            proof {
                if e@.len() >= 8 && e@[0]@.len() == 0 {
                    assert(e@[0]@ =~= Seq::<char>::empty());
                }
            }
            i = i + 1;
            continue;
        }
        let f = fiber_info_row(line)?;
        out.push(f);
        i = i + 1;
    }
    assert(lv.subrange(0, lv.len() as int) == lv);
    Ok(out)
}

} // verus!

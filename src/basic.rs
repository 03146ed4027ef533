//! The `key : value` block of `show info`.
use crate::addr::{ipv4_of, mac_of, IPv4Address, MacAddress};
use crate::pattern::{captures, find_values, lits_view};
use crate::tables::{lines_exec, lines_of};
use crate::text::{chars_of, is_lit, split, split_chars, string_of, trim, trim_chars};
use crate::types::Error;
use vstd::prelude::*;

verus! {

/// Basic switch information.
#[derive(Clone, Debug)]
pub struct BasicInfo {
    /// Configured System Name
    pub system_name: String,
    /// Configured System Location
    pub system_location: String,
    /// Configured System Contact
    pub system_contact: String,
    /// System MAC address
    pub mac_address: MacAddress,
    /// System IPv4 address
    pub ip_address: IPv4Address,
    /// System Subnet mask
    pub subnet_mask: IPv4Address,
    /// Boot version
    pub boot_version: String,
    /// Firmware version
    pub firmware_version: String,
    /// System object ID
    pub system_object_id: String,
    /// System uptime (in seconds)
    pub system_uptime: u64,
}

impl BasicInfo {
    /// Empty texts, zero addresses, zero uptime.
    pub fn default() -> (r: BasicInfo)
        ensures
            r.system_name@.len() == 0,
            r.system_location@.len() == 0,
            r.system_contact@.len() == 0,
            r.mac_address.bytes@ == seq![0u8, 0u8, 0u8, 0u8, 0u8, 0u8],
            r.ip_address.bytes@ == seq![0u8, 0u8, 0u8, 0u8],
            r.subnet_mask.bytes@ == seq![0u8, 0u8, 0u8, 0u8],
            r.boot_version@.len() == 0,
            r.firmware_version@.len() == 0,
            r.system_object_id@.len() == 0,
            r.system_uptime == 0,
    {
        BasicInfo {
            system_name: String::new(),
            system_location: String::new(),
            system_contact: String::new(),
            mac_address: MacAddress::default(),
            ip_address: IPv4Address::default(),
            subnet_mask: IPv4Address::default(),
            boot_version: String::new(),
            firmware_version: String::new(),
            system_object_id: String::new(),
            system_uptime: 0,
        }
    }
}

pub open spec fn kv(line: Seq<char>) -> Seq<Seq<char>> {
    split(line, " : "@)
}

pub open spec fn has_kv(line: Seq<char>) -> bool {
    kv(line).len() >= 2
}

pub open spec fn key_of(line: Seq<char>) -> Seq<char> {
    trim(kv(line)[0])
}

pub open spec fn val_of(line: Seq<char>) -> Seq<char> {
    trim(kv(line)[1])
}

pub open spec fn known_key(k: Seq<char>) -> bool {
    ||| k == "System Name"@
    ||| k == "System Location"@
    ||| k == "System Contact"@
    ||| k == "MAC Address"@
    ||| k == "IP Address"@
    ||| k == "Subnet Mask"@
    ||| k == "Boot Version"@
    ||| k == "Firmware Version"@
    ||| k == "System Object ID"@
    ||| k == "System Up Time"@
}

/// The uptime text `<d> days, <h> hours, <m> mins, <s> secs`.
pub open spec fn uptime_lits() -> Seq<Seq<char>> {
    seq![Seq::<char>::empty(), " days, "@, " hours, "@, " mins, "@, " secs"@]
}

/// The uptime in seconds that a line states, if it holds the uptime text.
pub open spec fn uptime_of(line: Seq<char>) -> Option<nat> {
    match captures(line, uptime_lits()) {
        Some(v) => Some(v[0] * 86400 + v[1] * 3600 + v[2] * 60 + v[3]),
        None => None,
    }
}

/// Index of the last line that sets the key `k`, or -1.
pub open spec fn last_key(ls: Seq<Seq<char>>, k: Seq<char>) -> int
    decreases ls.len(),
{
    if ls.len() == 0 {
        -1
    } else if has_kv(ls.last()) && key_of(ls.last()) == k {
        ls.len() - 1
    } else {
        last_key(ls.drop_last(), k)
    }
}

/// The value last given to the key `k`, or empty.
pub open spec fn key_val(ls: Seq<Seq<char>>, k: Seq<char>) -> Seq<char> {
    if last_key(ls, k) >= 0 {
        val_of(ls[last_key(ls, k)])
    } else {
        Seq::<char>::empty()
    }
}

pub open spec fn is_uptime_line(l: Seq<char>) -> bool {
    has_kv(l) && key_of(l) == "System Up Time"@ && uptime_of(l) is Some
}

/// Index of the last uptime line that holds the uptime text, or -1.
pub open spec fn last_uptime(ls: Seq<Seq<char>>) -> int
    decreases ls.len(),
{
    if ls.len() == 0 {
        -1
    } else if is_uptime_line(ls.last()) {
        ls.len() - 1
    } else {
        last_uptime(ls.drop_last())
    }
}

pub open spec fn uptime_val(ls: Seq<Seq<char>>) -> nat {
    if last_uptime(ls) >= 0 {
        uptime_of(ls[last_uptime(ls)]).unwrap()
    } else {
        0
    }
}

/// The address last given to `k`, or all zeros.
pub open spec fn mac_field(ls: Seq<Seq<char>>, k: Seq<char>) -> Seq<u8> {
    if last_key(ls, k) >= 0 {
        mac_of(key_val(ls, k)).unwrap()
    } else {
        seq![0u8, 0u8, 0u8, 0u8, 0u8, 0u8]
    }
}

pub open spec fn ipv4_field(ls: Seq<Seq<char>>, k: Seq<char>) -> Seq<u8> {
    if last_key(ls, k) >= 0 {
        ipv4_of(key_val(ls, k)).unwrap()
    } else {
        seq![0u8, 0u8, 0u8, 0u8]
    }
}

/// A `key : value` line is acceptable: its key is known and its value
/// parses where the key asks for an address or the uptime.
pub open spec fn info_line_ok(l: Seq<char>) -> bool {
    has_kv(l) ==> {
        &&& known_key(key_of(l))
        &&& key_of(l) == "MAC Address"@ ==> mac_of(val_of(l)) is Some
        &&& key_of(l) == "IP Address"@ ==> ipv4_of(val_of(l)) is Some
        &&& key_of(l) == "Subnet Mask"@ ==> ipv4_of(val_of(l)) is Some
        &&& key_of(l) == "System Up Time"@ ==> (uptime_of(l) matches Some(t) ==> t <= u64::MAX)
    }
}

proof fn lemma_last_key_step(ls: Seq<Seq<char>>, i: int)
    requires
        0 <= i < ls.len(),
    ensures
        forall|k: Seq<char>|
            #[trigger] key_val(ls.subrange(0, i + 1), k) == if has_kv(ls[i]) && key_of(ls[i]) == k {
                val_of(ls[i])
            } else {
                key_val(ls.subrange(0, i), k)
            },
        forall|k: Seq<char>|
            (#[trigger] last_key(ls.subrange(0, i + 1), k) >= 0) == ((has_kv(ls[i]) && key_of(ls[i])
                == k) || last_key(ls.subrange(0, i), k) >= 0),
        last_uptime(ls.subrange(0, i + 1)) == if is_uptime_line(ls[i]) {
            i
        } else {
            last_uptime(ls.subrange(0, i))
        },
        uptime_val(ls.subrange(0, i + 1)) == if is_uptime_line(ls[i]) {
            uptime_of(ls[i]).unwrap()
        } else {
            uptime_val(ls.subrange(0, i))
        },
{
    let a = ls.subrange(0, i + 1);
    let b = ls.subrange(0, i);
    assert(a.drop_last() == b);
    assert forall|k: Seq<char>|
        #[trigger] key_val(a, k) == if has_kv(ls[i]) && key_of(ls[i]) == k {
            val_of(ls[i])
        } else {
            key_val(b, k)
        } by {
        lemma_last_key_bound(b, k);
    }
    assert forall|k: Seq<char>|
        (#[trigger] last_key(a, k) >= 0) == ((has_kv(ls[i]) && key_of(ls[i]) == k) || last_key(b, k)
            >= 0) by {
        lemma_last_key_bound(b, k);
    }
    lemma_last_uptime_bound(b);
}

proof fn lemma_last_key_bound(ls: Seq<Seq<char>>, k: Seq<char>)
    ensures
        -1 <= last_key(ls, k) < ls.len(),
    decreases ls.len(),
{
    if ls.len() > 0 {
        lemma_last_key_bound(ls.drop_last(), k);
    }
}

proof fn lemma_last_uptime_bound(ls: Seq<Seq<char>>)
    ensures
        -1 <= last_uptime(ls) < ls.len(),
    decreases ls.len(),
{
    if ls.len() > 0 {
        lemma_last_uptime_bound(ls.drop_last());
    }
}

/// The position of a key in the table of known keys; 10 for an unknown key.
pub open spec fn key_index(k: Seq<char>) -> int {
    if k == "System Name"@ {
        0
    } else if k == "System Location"@ {
        1
    } else if k == "System Contact"@ {
        2
    } else if k == "MAC Address"@ {
        3
    } else if k == "IP Address"@ {
        4
    } else if k == "Subnet Mask"@ {
        5
    } else if k == "Boot Version"@ {
        6
    } else if k == "Firmware Version"@ {
        7
    } else if k == "System Object ID"@ {
        8
    } else if k == "System Up Time"@ {
        9
    } else {
        10
    }
}

proof fn lemma_key_index(k: Seq<char>)
    ensures
        (k == "System Name"@) == (key_index(k) == 0),
        (k == "System Location"@) == (key_index(k) == 1),
        (k == "System Contact"@) == (key_index(k) == 2),
        (k == "MAC Address"@) == (key_index(k) == 3),
        (k == "IP Address"@) == (key_index(k) == 4),
        (k == "Subnet Mask"@) == (key_index(k) == 5),
        (k == "Boot Version"@) == (key_index(k) == 6),
        (k == "Firmware Version"@) == (key_index(k) == 7),
        (k == "System Object ID"@) == (key_index(k) == 8),
        (k == "System Up Time"@) == (key_index(k) == 9),
        known_key(k) == (key_index(k) < 10),
{
    reveal_strlit("System Name");
    reveal_strlit("System Location");
    reveal_strlit("System Contact");
    reveal_strlit("MAC Address");
    reveal_strlit("IP Address");
    reveal_strlit("Subnet Mask");
    reveal_strlit("Boot Version");
    reveal_strlit("Firmware Version");
    reveal_strlit("System Object ID");
    reveal_strlit("System Up Time");
    assert("System Name"@.len() == 11);
    assert("System Location"@.len() == 15);
    assert("System Contact"@.len() == 14);
    assert("MAC Address"@.len() == 11);
    assert("IP Address"@.len() == 10);
    assert("Subnet Mask"@.len() == 11);
    assert("Boot Version"@.len() == 12);
    assert("Firmware Version"@.len() == 16);
    assert("System Object ID"@.len() == 16);
    assert("System Up Time"@.len() == 14);
    assert("System Name"@[1] != "Subnet Mask"@[1]);
    assert("System Name"@[0] != "MAC Address"@[0]);
    assert("MAC Address"@[0] != "Subnet Mask"@[0]);
    assert("System Contact"@[7] != "System Up Time"@[7]);
    assert("Firmware Version"@[0] != "System Object ID"@[0]);
}

fn key_index_exec(k: &[char]) -> (r: u8)
    ensures
        r == key_index(k@),
{
    if is_lit(k, "System Name") {
        0
    } else if is_lit(k, "System Location") {
        1
    } else if is_lit(k, "System Contact") {
        2
    } else if is_lit(k, "MAC Address") {
        3
    } else if is_lit(k, "IP Address") {
        4
    } else if is_lit(k, "Subnet Mask") {
        5
    } else if is_lit(k, "Boot Version") {
        6
    } else if is_lit(k, "Firmware Version") {
        7
    } else if is_lit(k, "System Object ID") {
        8
    } else if is_lit(k, "System Up Time") {
        9
    } else {
        10
    }
}

fn uptime_pattern() -> (r: Vec<Vec<char>>)
    ensures
        lits_view(r@) == uptime_lits(),
{
    let mut r: Vec<Vec<char>> = Vec::new();
    r.push(Vec::new());
    r.push(chars_of(" days, "));
    r.push(chars_of(" hours, "));
    r.push(chars_of(" mins, "));
    r.push(chars_of(" secs"));
    assert(lits_view(r@) =~= uptime_lits());
    r
}

/// The uptime that `line` states: `Ok(None)` when it holds no uptime text.
fn uptime_exec(line: &[char]) -> (r: Result<Option<u64>, Error>)
    ensures
        match uptime_of(line@) {
            None => r matches Ok(None),
            Some(t) => if t <= u64::MAX {
                r matches Ok(Some(x)) && x == t
            } else {
                r is Err
            },
        },
{
    let pat = uptime_pattern();
    let found = find_values(line, &pat, 0xffff_ffff_ffff_ffff);
    match found {
        Err(e) => {
            proof {
                crate::pattern::lemma_captures_len(line@, uptime_lits());
                let v = captures(line@, uptime_lits()).unwrap();
                assert(!crate::pattern::all_upto(v, u64::MAX as nat));
                let k = choose|k: int| 0 <= k < v.len() && !(v[k] <= u64::MAX);
                assert(v[k] <= uptime_of(line@).unwrap());
            }
            Err(e)
        },
        Ok(None) => Ok(None),
        Ok(Some(v)) => {
            proof {
                crate::pattern::lemma_captures_len(line@, uptime_lits());
            }
            let total: u128 = (v[0] as u128) * 86400 + (v[1] as u128) * 3600 + (v[2] as u128) * 60
                + (v[3] as u128);
            if total > 0xffff_ffff_ffff_ffff {
                Err(Error::Malformed)
            } else {
                Ok(Some(total as u64))
            }
        },
    }
}

/// Parses the answer to `show info`. Each field takes the value of the last
/// line with its key; a line with an unknown key fails the whole answer.
pub fn parse_basic_info(data: &str) -> (r: Result<BasicInfo, Error>)
    ensures
        r is Ok <==> (forall|i: int|
            0 <= i < lines_of(data@).len() ==> info_line_ok(#[trigger] lines_of(data@)[i])),
        r matches Ok(b) ==> {
            let ls = lines_of(data@);
            &&& b.system_name@ == key_val(ls, "System Name"@)
            &&& b.system_location@ == key_val(ls, "System Location"@)
            &&& b.system_contact@ == key_val(ls, "System Contact"@)
            &&& b.mac_address.bytes@ == mac_field(ls, "MAC Address"@)
            &&& b.ip_address.bytes@ == ipv4_field(ls, "IP Address"@)
            &&& b.subnet_mask.bytes@ == ipv4_field(ls, "Subnet Mask"@)
            &&& b.boot_version@ == key_val(ls, "Boot Version"@)
            &&& b.firmware_version@ == key_val(ls, "Firmware Version"@)
            &&& b.system_object_id@ == key_val(ls, "System Object ID"@)
            &&& b.system_uptime == uptime_val(ls)
        },
{
    let lines = lines_exec(data);
    let ghost lv = lines_of(data@);
    let mut system_name = String::new();
    let mut system_location = String::new();
    let mut system_contact = String::new();
    let mut mac_address = MacAddress::default();
    let mut ip_address = IPv4Address::default();
    let mut subnet_mask = IPv4Address::default();
    let mut boot_version = String::new();
    let mut firmware_version = String::new();
    let mut system_object_id = String::new();
    let mut system_uptime: u64 = 0;
    let mut i: usize = 0;
    assert(lv.subrange(0, 0).len() == 0);
    while i < lines.len()
        invariant
            lv == lines@.map_values(|x: Vec<char>| x@),
            lv == lines_of(data@),
            0 <= i <= lv.len(),
            forall|j: int| 0 <= j < i ==> info_line_ok(#[trigger] lv[j]),
            system_name@ == key_val(lv.subrange(0, i as int), "System Name"@),
            system_location@ == key_val(lv.subrange(0, i as int), "System Location"@),
            system_contact@ == key_val(lv.subrange(0, i as int), "System Contact"@),
            mac_address.bytes@ == mac_field(lv.subrange(0, i as int), "MAC Address"@),
            ip_address.bytes@ == ipv4_field(lv.subrange(0, i as int), "IP Address"@),
            subnet_mask.bytes@ == ipv4_field(lv.subrange(0, i as int), "Subnet Mask"@),
            boot_version@ == key_val(lv.subrange(0, i as int), "Boot Version"@),
            firmware_version@ == key_val(lv.subrange(0, i as int), "Firmware Version"@),
            system_object_id@ == key_val(lv.subrange(0, i as int), "System Object ID"@),
            system_uptime == uptime_val(lv.subrange(0, i as int)),
        decreases lv.len() - i,
    {
        let line = lines[i].as_slice();
        assert(line@ == lv[i as int]);
        proof {
            lemma_last_key_step(lv, i as int);
            reveal_strlit(" : ");
        }
        let kvs = split_chars(line, " : ");
        let ghost kvv = kvs@.map_values(|x: Vec<char>| x@);
        if kvs.len() < 2 {
            i = i + 1;
            continue;
        }
        assert(kvs@[0]@ == kvv[0] && kvs@[1]@ == kvv[1]);
        let key = trim_chars(kvs[0].as_slice());
        let val = trim_chars(kvs[1].as_slice());
        let ki = key_index_exec(key.as_slice());
        proof {
            lemma_key_index(key@);
        }
        if ki == 0 {
            system_name = string_of(val.as_slice());
        } else if ki == 1 {
            system_location = string_of(val.as_slice());
        } else if ki == 2 {
            system_contact = string_of(val.as_slice());
        } else if ki == 3 {
            mac_address = match MacAddress::from_chars(val.as_slice()) {
                Ok(m) => m,
                Err(e) => {
                    return Err(e);
                },
            };
        } else if ki == 4 {
            ip_address = match IPv4Address::from_chars(val.as_slice()) {
                Ok(m) => m,
                Err(e) => {
                    return Err(e);
                },
            };
        } else if ki == 5 {
            subnet_mask = match IPv4Address::from_chars(val.as_slice()) {
                Ok(m) => m,
                Err(e) => {
                    return Err(e);
                },
            };
        } else if ki == 6 {
            boot_version = string_of(val.as_slice());
        } else if ki == 7 {
            firmware_version = string_of(val.as_slice());
        } else if ki == 8 {
            system_object_id = string_of(val.as_slice());
        } else if ki == 9 {
            match uptime_exec(line) {
                Ok(Some(x)) => {
                    system_uptime = x;
                },
                Ok(None) => {},
                Err(e) => {
                    return Err(e);
                },
            }
        } else {
            return Err(Error::Protocol);
        }
        i = i + 1;
    }
    assert(lv.subrange(0, lv.len() as int) == lv);
    Ok(
        BasicInfo {
            system_name,
            system_location,
            system_contact,
            mac_address,
            ip_address,
            subnet_mask,
            boot_version,
            firmware_version,
            system_object_id,
            system_uptime,
        },
    )
}

} // verus!

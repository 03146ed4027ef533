//! The switch's small value types: the error kinds, the literal tables of its
//! enumerated states, port speed and duplex, and neighbor capabilities.
use crate::text::{chars_of, is_lit, split, split_chars};
use vstd::prelude::*;

verus! {

/// Why an operation failed.
#[derive(Clone, Copy, Debug, PartialEq, Eq, Structural)]
pub enum Error {
    /// The device answered with something other than the expected framing.
    Protocol,
    /// A field that has the expected shape failed its strict parse.
    Malformed,
    /// An argument lies outside its documented bound.
    Precondition,
    /// The requested entry is not in the device's answer.
    NotFound,
}

/// `Some(x)` becomes `Ok(x)`, `None` a malformed-data error.
pub open spec fn or_malformed<T>(o: Option<T>) -> Result<T, Error> {
    match o {
        Some(x) => Ok(x),
        None => Err(Error::Malformed),
    }
}

/// Type of an entry in the MAC address table.
#[derive(Clone, Copy, Debug, PartialEq, Eq, Structural)]
pub enum MacEntryType {
    Management,
    Dynamic,
    Static,
}

impl MacEntryType {
    pub open spec fn of(s: Seq<char>) -> Option<MacEntryType> {
        if s == "Management"@ {
            Some(MacEntryType::Management)
        } else if s == "Dynamic"@ {
            Some(MacEntryType::Dynamic)
        } else if s == "Static"@ {
            Some(MacEntryType::Static)
        } else {
            None
        }
    }

    pub fn from_chars(s: &[char]) -> (r: Result<MacEntryType, Error>)
        ensures
            r == or_malformed(MacEntryType::of(s@)),
    {
        if is_lit(s, "Management") {
            Ok(MacEntryType::Management)
        } else if is_lit(s, "Dynamic") {
            Ok(MacEntryType::Dynamic)
        } else if is_lit(s, "Static") {
            Ok(MacEntryType::Static)
        } else {
            Err(Error::Malformed)
        }
    }

    pub fn from_str(s: &str) -> (r: Result<MacEntryType, Error>)
        ensures
            r == or_malformed(MacEntryType::of(s@)),
    {
        MacEntryType::from_chars(chars_of(s).as_slice())
    }
}

/// Status of one SFP diagnostic reading.
#[derive(Clone, Copy, Debug, PartialEq, Eq, Structural)]
pub enum SFPStatus {
    NotAvailable,
    OK,
    Warning,
    Error,
}

impl SFPStatus {
    pub open spec fn of(s: Seq<char>) -> Option<SFPStatus> {
        if s == "N/A"@ {
            Some(SFPStatus::NotAvailable)
        } else if s == "OK"@ {
            Some(SFPStatus::OK)
        } else if s == "W"@ {
            Some(SFPStatus::Warning)
        } else if s == "E"@ {
            Some(SFPStatus::Error)
        } else {
            None
        }
    }

    pub fn from_chars(s: &[char]) -> (r: Result<SFPStatus, Error>)
        ensures
            r == or_malformed(SFPStatus::of(s@)),
    {
        if is_lit(s, "N/A") {
            Ok(SFPStatus::NotAvailable)
        } else if is_lit(s, "OK") {
            Ok(SFPStatus::OK)
        } else if is_lit(s, "W") {
            Ok(SFPStatus::Warning)
        } else if is_lit(s, "E") {
            Ok(SFPStatus::Error)
        } else {
            Err(Error::Malformed)
        }
    }

    pub fn from_str(s: &str) -> (r: Result<SFPStatus, Error>)
        ensures
            r == or_malformed(SFPStatus::of(s@)),
    {
        SFPStatus::from_chars(chars_of(s).as_slice())
    }
}

/// PoE classification (0-4).
#[derive(Clone, Copy, Debug, PartialEq, Eq, Structural)]
pub enum PoEClass {
    /// 0.44 - 12.94 Watts
    Class0,
    /// 0.44 - 3.84 Watts
    Class1,
    /// 3.84 - 6.49 Watts
    Class2,
    /// 6.49 - 12.95 Watts
    Class3,
    /// 12.95 - 25.50 Watts (802.3at)
    Class4,
}

impl PoEClass {
    pub open spec fn of(s: Seq<char>) -> Option<PoEClass> {
        if s == "class0"@ {
            Some(PoEClass::Class0)
        } else if s == "class1"@ {
            Some(PoEClass::Class1)
        } else if s == "class2"@ {
            Some(PoEClass::Class2)
        } else if s == "class3"@ {
            Some(PoEClass::Class3)
        } else if s == "class4"@ {
            Some(PoEClass::Class4)
        } else {
            None
        }
    }

    pub fn from_chars(s: &[char]) -> (r: Result<PoEClass, Error>)
        ensures
            r == or_malformed(PoEClass::of(s@)),
    {
        if is_lit(s, "class0") {
            Ok(PoEClass::Class0)
        } else if is_lit(s, "class1") {
            Ok(PoEClass::Class1)
        } else if is_lit(s, "class2") {
            Ok(PoEClass::Class2)
        } else if is_lit(s, "class3") {
            Ok(PoEClass::Class3)
        } else if is_lit(s, "class4") {
            Ok(PoEClass::Class4)
        } else {
            Err(Error::Malformed)
        }
    }

    pub fn from_str(s: &str) -> (r: Result<PoEClass, Error>)
        ensures
            r == or_malformed(PoEClass::of(s@)),
    {
        PoEClass::from_chars(chars_of(s).as_slice())
    }
}

/// PoE power mode (802.3af, 802.3at, ...).
#[allow(non_camel_case_types)]
#[derive(Clone, Copy, Debug, PartialEq, Eq, Structural)]
pub enum PoEPowerMode {
    IEEE_802_3af,
    Legacy,
    Pre_802_3at,
    IEEE_802_3at,
}

/// PoE port priority (Low-Critical).
#[derive(Clone, Copy, Debug, PartialEq, Eq, Structural)]
pub enum PoEPriority {
    Low,
    Medium,
    High,
    Critical,
}

impl PoEPriority {
    pub open spec fn of(s: Seq<char>) -> Option<PoEPriority> {
        if s == "low"@ {
            Some(PoEPriority::Low)
        } else if s == "medium"@ {
            Some(PoEPriority::Medium)
        } else if s == "high"@ {
            Some(PoEPriority::High)
        } else if s == "critical"@ {
            Some(PoEPriority::Critical)
        } else {
            None
        }
    }

    pub fn from_chars(s: &[char]) -> (r: Result<PoEPriority, Error>)
        ensures
            r == or_malformed(PoEPriority::of(s@)),
    {
        if is_lit(s, "low") {
            Ok(PoEPriority::Low)
        } else if is_lit(s, "medium") {
            Ok(PoEPriority::Medium)
        } else if is_lit(s, "high") {
            Ok(PoEPriority::High)
        } else if is_lit(s, "critical") {
            Ok(PoEPriority::Critical)
        } else {
            Err(Error::Malformed)
        }
    }

    pub fn from_str(s: &str) -> (r: Result<PoEPriority, Error>)
        ensures
            r == or_malformed(PoEPriority::of(s@)),
    {
        PoEPriority::from_chars(chars_of(s).as_slice())
    }
}

/// PoE power limitation mode.
#[derive(Clone, Copy, Debug, PartialEq, Eq, Structural)]
pub enum PoELimitMode {
    /// Limit power based on device classification
    Classification,
    /// Limit power based on manual configuration
    User,
}

/// PoE port status (On, Off, Searching).
#[derive(Clone, Copy, Debug, PartialEq, Eq, Structural)]
pub enum PoEStatus {
    Off,
    Searching,
    On,
}

impl PoEStatus {
    pub open spec fn of(s: Seq<char>) -> Option<PoEStatus> {
        if s == "off"@ {
            Some(PoEStatus::Off)
        } else if s == "searching"@ {
            Some(PoEStatus::Searching)
        } else if s == "on"@ {
            Some(PoEStatus::On)
        } else {
            None
        }
    }

    pub fn from_chars(s: &[char]) -> (r: Result<PoEStatus, Error>)
        ensures
            r == or_malformed(PoEStatus::of(s@)),
    {
        if is_lit(s, "off") {
            Ok(PoEStatus::Off)
        } else if is_lit(s, "searching") {
            Ok(PoEStatus::Searching)
        } else if is_lit(s, "on") {
            Ok(PoEStatus::On)
        } else {
            Err(Error::Malformed)
        }
    }

    pub fn from_str(s: &str) -> (r: Result<PoEStatus, Error>)
        ensures
            r == or_malformed(PoEStatus::of(s@)),
    {
        PoEStatus::from_chars(chars_of(s).as_slice())
    }
}

/// PoE power allocation mode.
#[derive(Clone, Copy, Debug, PartialEq, Eq, Structural)]
pub enum PoEMode {
    /// Allocate power based on device classification
    Classification,
    /// Allocate power based on device consumption
    Consumption,
}

impl PoEMode {
    pub open spec fn of(s: Seq<char>) -> Option<PoEMode> {
        if s == "Class limit mode"@ {
            Some(PoEMode::Classification)
        } else if s == "Port limit mode"@ {
            Some(PoEMode::Consumption)
        } else {
            None
        }
    }

    pub fn from_chars(s: &[char]) -> (r: Result<PoEMode, Error>)
        ensures
            r == or_malformed(PoEMode::of(s@)),
    {
        if is_lit(s, "Class limit mode") {
            Ok(PoEMode::Classification)
        } else if is_lit(s, "Port limit mode") {
            Ok(PoEMode::Consumption)
        } else {
            Err(Error::Malformed)
        }
    }

    pub fn from_str(s: &str) -> (r: Result<PoEMode, Error>)
        ensures
            r == or_malformed(PoEMode::of(s@)),
    {
        PoEMode::from_chars(chars_of(s).as_slice())
    }
}

/// PoE power-up sequence.
#[derive(Clone, Copy, Debug, PartialEq, Eq, Structural)]
pub enum PoEPowerUpSequence {
    /// Enable PoE ports one after each other
    Staggered,
    /// Enable all PoE ports simultaneously
    Simultaneous,
}

impl PoEPowerUpSequence {
    pub open spec fn of(s: Seq<char>) -> Option<PoEPowerUpSequence> {
        if s == "Staggered"@ {
            Some(PoEPowerUpSequence::Staggered)
        } else if s == "Simultaneous"@ {
            Some(PoEPowerUpSequence::Simultaneous)
        } else {
            None
        }
    }

    pub fn from_chars(s: &[char]) -> (r: Result<PoEPowerUpSequence, Error>)
        ensures
            r == or_malformed(PoEPowerUpSequence::of(s@)),
    {
        if is_lit(s, "Staggered") {
            Ok(PoEPowerUpSequence::Staggered)
        } else if is_lit(s, "Simultaneous") {
            Ok(PoEPowerUpSequence::Simultaneous)
        } else {
            Err(Error::Malformed)
        }
    }

    pub fn from_str(s: &str) -> (r: Result<PoEPowerUpSequence, Error>)
        ensures
            r == or_malformed(PoEPowerUpSequence::of(s@)),
    {
        PoEPowerUpSequence::from_chars(chars_of(s).as_slice())
    }
}

/// State of one cable pair.
#[derive(Clone, Copy, Debug, PartialEq, Eq, Structural)]
pub enum CablePairState {
    /// Connected to a running device
    Normal,
    /// Not connected to anything
    Open,
    /// Connected to a power-off device
    LineDriver,
    /// Cable has bad quality (impedance is not 70-130 Ohm)
    ImpedanceMis,
}

impl CablePairState {
    pub open spec fn of(s: Seq<char>) -> Option<CablePairState> {
        if s == "Normal"@ {
            Some(CablePairState::Normal)
        } else if s == "Open"@ {
            Some(CablePairState::Open)
        } else if s == "LineDriver"@ {
            Some(CablePairState::LineDriver)
        } else if s == "ImpedanceMis"@ {
            Some(CablePairState::ImpedanceMis)
        } else {
            None
        }
    }

    pub fn from_chars(s: &[char]) -> (r: Result<CablePairState, Error>)
        ensures
            r == or_malformed(CablePairState::of(s@)),
    {
        if is_lit(s, "Normal") {
            Ok(CablePairState::Normal)
        } else if is_lit(s, "Open") {
            Ok(CablePairState::Open)
        } else if is_lit(s, "LineDriver") {
            Ok(CablePairState::LineDriver)
        } else if is_lit(s, "ImpedanceMis") {
            Ok(CablePairState::ImpedanceMis)
        } else {
            Err(Error::Malformed)
        }
    }

    pub fn from_str(s: &str) -> (r: Result<CablePairState, Error>)
        ensures
            r == or_malformed(CablePairState::of(s@)),
    {
        CablePairState::from_chars(chars_of(s).as_slice())
    }
}

/// Cable diagnostic information for one pair.
#[derive(Clone, Copy, Debug, PartialEq, Eq, Structural)]
pub struct CablePairStatus {
    /// pair (A,B,C,D)
    pub pair: char,
    /// length in cm
    pub length: u32,
    /// pair status
    pub status: CablePairState,
}

/// Port speed information.
#[derive(Clone, Copy, Debug, PartialEq, Eq, Structural)]
pub struct PortSpeed {
    /// Port speed is auto-negotiated
    pub auto: bool,
    /// negotiated speed in MBit/s
    pub speed: u32,
}

impl PortSpeed {
    /// The device's speed literals; each names one (auto, rate) pair.
    pub open spec fn of(s: Seq<char>) -> Option<PortSpeed> {
        if s == "auto"@ || s == "Auto"@ {
            Some(PortSpeed { auto: true, speed: 0 })
        } else if s == "a-1000M"@ {
            Some(PortSpeed { auto: true, speed: 1000 })
        } else if s == "1000M"@ || s == "1000Mb"@ || s == "1000Mb/s"@ {
            Some(PortSpeed { auto: false, speed: 1000 })
        } else if s == "a-100M"@ {
            Some(PortSpeed { auto: true, speed: 100 })
        } else if s == "100M"@ || s == "100Mb"@ || s == "100Mb/s"@ {
            Some(PortSpeed { auto: false, speed: 100 })
        } else if s == "a-10M"@ {
            Some(PortSpeed { auto: true, speed: 10 })
        } else if s == "10M"@ || s == "10Mb"@ || s == "10Mb/s"@ {
            Some(PortSpeed { auto: false, speed: 10 })
        } else {
            None
        }
    }

    pub fn from_chars(s: &[char]) -> (r: Result<PortSpeed, Error>)
        ensures
            r == or_malformed(PortSpeed::of(s@)),
    {
        if is_lit(s, "auto") || is_lit(s, "Auto") {
            Ok(PortSpeed { auto: true, speed: 0 })
        } else if is_lit(s, "a-1000M") {
            Ok(PortSpeed { auto: true, speed: 1000 })
        } else if is_lit(s, "1000M") || is_lit(s, "1000Mb") || is_lit(s, "1000Mb/s") {
            Ok(PortSpeed { auto: false, speed: 1000 })
        } else if is_lit(s, "a-100M") {
            Ok(PortSpeed { auto: true, speed: 100 })
        } else if is_lit(s, "100M") || is_lit(s, "100Mb") || is_lit(s, "100Mb/s") {
            Ok(PortSpeed { auto: false, speed: 100 })
        } else if is_lit(s, "a-10M") {
            Ok(PortSpeed { auto: true, speed: 10 })
        } else if is_lit(s, "10M") || is_lit(s, "10Mb") || is_lit(s, "10Mb/s") {
            Ok(PortSpeed { auto: false, speed: 10 })
        } else {
            Err(Error::Malformed)
        }
    }

    pub fn from_str(s: &str) -> (r: Result<PortSpeed, Error>)
        ensures
            r == or_malformed(PortSpeed::of(s@)),
    {
        PortSpeed::from_chars(chars_of(s).as_slice())
    }
}

/// Port duplex information.
#[derive(Clone, Copy, Debug, PartialEq, Eq, Structural)]
pub enum PortDuplex {
    Auto,
    Full,
    Half,
}

impl PortDuplex {
    pub open spec fn of(s: Seq<char>) -> Option<PortDuplex> {
        if s == "Auto"@ || s == "auto"@ {
            Some(PortDuplex::Auto)
        } else if s == "Full"@ || s == "full"@ || s == "a-full"@ {
            Some(PortDuplex::Full)
        } else if s == "Half"@ || s == "half"@ || s == "a-half"@ {
            Some(PortDuplex::Half)
        } else {
            None
        }
    }

    pub fn from_chars(s: &[char]) -> (r: Result<PortDuplex, Error>)
        ensures
            r == or_malformed(PortDuplex::of(s@)),
    {
        if is_lit(s, "Auto") || is_lit(s, "auto") {
            Ok(PortDuplex::Auto)
        } else if is_lit(s, "Full") || is_lit(s, "full") || is_lit(s, "a-full") {
            Ok(PortDuplex::Full)
        } else if is_lit(s, "Half") || is_lit(s, "half") || is_lit(s, "a-half") {
            Ok(PortDuplex::Half)
        } else {
            Err(Error::Malformed)
        }
    }

    pub fn from_str(s: &str) -> (r: Result<PortDuplex, Error>)
        ensures
            r == or_malformed(PortDuplex::of(s@)),
    {
        PortDuplex::from_chars(chars_of(s).as_slice())
    }
}

/// Media type (copper, fiber).
#[derive(Clone, Copy, Debug, PartialEq, Eq, Structural)]
pub enum MediaType {
    /// RJ45 port (copper)
    Copper,
    /// SFP port (fiber)
    Fiber,
}

impl MediaType {
    pub open spec fn of(s: Seq<char>) -> Option<MediaType> {
        if s == "Copper"@ {
            Some(MediaType::Copper)
        } else if s == "Fiber"@ {
            Some(MediaType::Fiber)
        } else {
            None
        }
    }

    pub fn from_chars(s: &[char]) -> (r: Result<MediaType, Error>)
        ensures
            r == or_malformed(MediaType::of(s@)),
    {
        if is_lit(s, "Copper") {
            Ok(MediaType::Copper)
        } else if is_lit(s, "Fiber") {
            Ok(MediaType::Fiber)
        } else {
            Err(Error::Malformed)
        }
    }

    pub fn from_str(s: &str) -> (r: Result<MediaType, Error>)
        ensures
            r == or_malformed(MediaType::of(s@)),
    {
        MediaType::from_chars(chars_of(s).as_slice())
    }
}

/// VLAN type (static, dynamic).
#[derive(Clone, Copy, Debug, PartialEq, Eq, Structural)]
pub enum VLANType {
    Default,
    Static,
    Dynamic,
}

impl VLANType {
    pub open spec fn of(s: Seq<char>) -> Option<VLANType> {
        if s == "Default"@ {
            Some(VLANType::Default)
        } else if s == "Static"@ {
            Some(VLANType::Static)
        } else if s == "Dynamic"@ {
            Some(VLANType::Dynamic)
        } else {
            None
        }
    }

    pub fn from_chars(s: &[char]) -> (r: Result<VLANType, Error>)
        ensures
            r == or_malformed(VLANType::of(s@)),
    {
        if is_lit(s, "Default") {
            Ok(VLANType::Default)
        } else if is_lit(s, "Static") {
            Ok(VLANType::Static)
        } else if is_lit(s, "Dynamic") {
            Ok(VLANType::Dynamic)
        } else {
            Err(Error::Malformed)
        }
    }

    pub fn from_str(s: &str) -> (r: Result<VLANType, Error>)
        ensures
            r == or_malformed(VLANType::of(s@)),
    {
        VLANType::from_chars(chars_of(s).as_slice())
    }
}

/// LLDP capabilities of a neighbor: independent flags.
#[derive(Clone, Copy, Debug, PartialEq, Eq, Structural)]
pub struct LLDPCap {
    pub station: bool,
    pub bridge: bool,
    pub wlan: bool,
    pub router: bool,
    pub telephone: bool,
}

/// A capability phrase is one of the five known ones.
pub open spec fn known_cap(p: Seq<char>) -> bool {
    p == "Station Only"@ || p == "Bridge"@ || p == "WLAN"@ || p == "Router"@ || p == "Telephone"@
}

/// Some phrase of `ps` equals `p`.
pub open spec fn has_phrase(ps: Seq<Seq<char>>, p: Seq<char>) -> bool {
    exists|i: int| 0 <= i < ps.len() && ps[i] == p
}

/// The capability set that a list of phrases names: each phrase sets one
/// flag, and an unknown phrase fails the whole list.
pub open spec fn caps_of_phrases(ps: Seq<Seq<char>>) -> Option<LLDPCap> {
    if forall|i: int| 0 <= i < ps.len() ==> known_cap(#[trigger] ps[i]) {
        Some(
            LLDPCap {
                station: has_phrase(ps, "Station Only"@),
                bridge: has_phrase(ps, "Bridge"@),
                wlan: has_phrase(ps, "WLAN"@),
                router: has_phrase(ps, "Router"@),
                telephone: has_phrase(ps, "Telephone"@),
            },
        )
    } else {
        None
    }
}

/// The capability set written as a `", "`-separated phrase list.
pub open spec fn caps_of(s: Seq<char>) -> Option<LLDPCap> {
    caps_of_phrases(split(s, ", "@))
}

impl LLDPCap {
    pub open spec fn spec_bits(self) -> u8 {
        ((if self.station { 1u8 } else { 0u8 }) + (if self.bridge { 2u8 } else { 0u8 }) + (
        if self.wlan {
            4u8
        } else {
            0u8
        }) + (if self.router { 8u8 } else { 0u8 }) + (if self.telephone {
            16u8
        } else {
            0u8
        })) as u8
    }

    /// The flags packed as station 1, bridge 2, WLAN 4, router 8, telephone 16.
    pub fn bits(&self) -> (r: u8)
        ensures
            r == self.spec_bits(),
    {
        let mut b: u8 = 0;
        if self.station {
            b = b + 1;
        }
        if self.bridge {
            b = b + 2;
        }
        if self.wlan {
            b = b + 4;
        }
        if self.router {
            b = b + 8;
        }
        if self.telephone {
            b = b + 16;
        }
        b
    }

    /// Parses a phrase list such as `Bridge, Router`.
    pub fn from_chars(s: &[char]) -> (r: Result<LLDPCap, Error>)
        ensures
            r == or_malformed(caps_of(s@)),
    {
        proof {
            reveal_strlit(", ");
        }
        let ps = split_chars(s, ", ");
        let ghost pv = ps@.map_values(|x: Vec<char>| x@);
        let mut c = LLDPCap {
            station: false,
            bridge: false,
            wlan: false,
            router: false,
            telephone: false,
        };
        let mut i: usize = 0;
        while i < ps.len()
            invariant
                pv == ps@.map_values(|x: Vec<char>| x@),
                pv == split(s@, ", "@),
                0 <= i <= pv.len(),
                forall|k: int| 0 <= k < i ==> known_cap(#[trigger] pv[k]),
                c.station == has_phrase(pv.subrange(0, i as int), "Station Only"@),
                c.bridge == has_phrase(pv.subrange(0, i as int), "Bridge"@),
                c.wlan == has_phrase(pv.subrange(0, i as int), "WLAN"@),
                c.router == has_phrase(pv.subrange(0, i as int), "Router"@),
                c.telephone == has_phrase(pv.subrange(0, i as int), "Telephone"@),
            decreases pv.len() - i,
        {
            let p = ps[i].as_slice();
            assert(p@ == pv[i as int]);
            let ghost pre = pv.subrange(0, i as int);
            let ghost nxt = pv.subrange(0, i + 1);
            assert forall|q: Seq<char>| has_phrase(nxt, q) == (has_phrase(pre, q) || pv[i as int] == q) by {
                if has_phrase(nxt, q) {
                    let j = choose|j: int| 0 <= j < nxt.len() && nxt[j] == q;
                    if j < i {
                        assert(pre[j] == q);
                    }
                }
                if has_phrase(pre, q) {
                    let j = choose|j: int| 0 <= j < pre.len() && pre[j] == q;
                    assert(nxt[j] == q);
                }
                if pv[i as int] == q {
                    assert(nxt[i as int] == q);
                }
            }
            assert(has_phrase(nxt, "Station Only"@) == (has_phrase(pre, "Station Only"@) || pv[i as int] == "Station Only"@));
            assert(has_phrase(nxt, "Bridge"@) == (has_phrase(pre, "Bridge"@) || pv[i as int] == "Bridge"@));
            assert(has_phrase(nxt, "WLAN"@) == (has_phrase(pre, "WLAN"@) || pv[i as int] == "WLAN"@));
            assert(has_phrase(nxt, "Router"@) == (has_phrase(pre, "Router"@) || pv[i as int] == "Router"@));
            assert(has_phrase(nxt, "Telephone"@) == (has_phrase(pre, "Telephone"@) || pv[i as int] == "Telephone"@));
            proof {
                reveal_strlit("Station Only");
                reveal_strlit("Bridge");
                reveal_strlit("WLAN");
                reveal_strlit("Router");
                reveal_strlit("Telephone");
                assert("Router"@[0] != "Bridge"@[0]);
            }
            if is_lit(p, "Station Only") {
                c.station = true;
            } else if is_lit(p, "Bridge") {
                c.bridge = true;
            } else if is_lit(p, "WLAN") {
                c.wlan = true;
            } else if is_lit(p, "Router") {
                c.router = true;
            } else if is_lit(p, "Telephone") {
                c.telephone = true;
            } else {
                return Err(Error::Malformed);
            }
            i = i + 1;
        }
        assert(pv.subrange(0, pv.len() as int) == pv);
        Ok(c)
    }

    pub fn from_str(s: &str) -> (r: Result<LLDPCap, Error>)
        ensures
            r == or_malformed(caps_of(s@)),
    {
        LLDPCap::from_chars(chars_of(s).as_slice())
    }
}

/// Capability parsing does not depend on the order of the phrases, nor on
/// how often one is repeated: two phrase lists that hold the same phrases
/// give the same result, failure included.
pub proof fn lemma_caps_order_and_repeats(a: Seq<Seq<char>>, b: Seq<Seq<char>>)
    requires
        a.to_set() == b.to_set(),
    ensures
        caps_of_phrases(a) == caps_of_phrases(b),
{
    assert forall|p: Seq<char>| has_phrase(a, p) == has_phrase(b, p) by {
        if has_phrase(a, p) {
            let i = choose|i: int| 0 <= i < a.len() && a[i] == p;
            assert(a.to_set().contains(a[i]));
            assert(b.to_set().contains(p));
        }
        if has_phrase(b, p) {
            let i = choose|i: int| 0 <= i < b.len() && b[i] == p;
            assert(b.to_set().contains(b[i]));
            assert(a.to_set().contains(p));
        }
    }
    let ka = forall|i: int| 0 <= i < a.len() ==> known_cap(#[trigger] a[i]);
    let kb = forall|i: int| 0 <= i < b.len() ==> known_cap(#[trigger] b[i]);
    if ka {
        assert forall|i: int| 0 <= i < b.len() implies known_cap(#[trigger] b[i]) by {
            assert(b.to_set().contains(b[i]));
            assert(a.to_set().contains(b[i]));
            let j = choose|j: int| 0 <= j < a.len() && a[j] == b[i];
        }
    }
    if kb {
        assert forall|i: int| 0 <= i < a.len() implies known_cap(#[trigger] a[i]) by {
            assert(a.to_set().contains(a[i]));
            assert(b.to_set().contains(a[i]));
            let j = choose|j: int| 0 <= j < b.len() && b[j] == a[i];
        }
    }
}

/// An unknown phrase fails the whole list, wherever it stands.
pub proof fn lemma_caps_unknown_fails(ps: Seq<Seq<char>>, i: int)
    requires
        0 <= i < ps.len(),
        !known_cap(ps[i]),
    ensures
        caps_of_phrases(ps) is None,
{
}

} // verus!

//! Power-over-Ethernet answers: the fixed-width port status table of
//! `debug ilpower port status`, and the three sections of
//! `show power inline consumption`, separated by blank lines.
use crate::tables::{lemma_filter_step, lines_exec, lines_of};
use crate::text::{
    all_digits, all_digits_exec, chars_of, is_lit, parse_uint, remove_all, remove_lit, slice_of, split,
    split_chars, string_of, trim, trim_chars, uint_of,
};
use crate::types::{Error, PoEClass, PoEMode, PoEPowerUpSequence, PoEPriority, PoEStatus};
use vstd::prelude::*;

verus! {

/// The trimmed text in the columns `a..b` of a fixed-width line.
pub open spec fn fw(line: Seq<char>, a: int, b: int) -> Seq<char> {
    trim(line.subrange(a, b))
}

/// The trimmed text from column `a` to the end of the line.
pub open spec fn fw_rest(line: Seq<char>, a: int) -> Seq<char> {
    trim(line.subrange(a, line.len() as int))
}

fn field(line: &[char], a: usize, b: usize) -> (r: Vec<char>)
    requires
        a <= b <= line@.len(),
    ensures
        r@ == fw(line@, a as int, b as int),
{
    let s = slice_of(line, a, b);
    trim_chars(s.as_slice())
}

/// PoE debug information.
#[derive(Clone, Debug)]
pub struct PoEDebug {
    /// Interface number
    pub port: u8,
    /// PoE status
    pub status: PoEStatus,
    /// PoE port priority
    pub priority: PoEPriority,
    /// PoE classification
    pub class: PoEClass,
    /// PoE status reason
    pub reason: String,
}

/// A data line of the debug table: long enough, and its port column holds
/// a number. Any other line is a header, a rule or a blank.
pub open spec fn debug_row(line: Seq<char>) -> bool {
    &&& line.len() >= 39
    &&& fw(line, 0, 4).len() >= 1
    &&& all_digits(fw(line, 0, 4))
}

pub open spec fn debug_rows(lines: Seq<Seq<char>>) -> Seq<Seq<char>> {
    lines.filter(|l: Seq<char>| debug_row(l))
}

pub open spec fn debug_ok(line: Seq<char>) -> bool {
    &&& uint_of(fw(line, 0, 4), 0xff) is Some
    &&& PoEStatus::of(fw(line, 11, 21)) is Some
    &&& PoEPriority::of(fw(line, 22, 30)) is Some
    &&& PoEClass::of(fw(line, 31, 38)) is Some
}

pub open spec fn debug_from(d: PoEDebug, line: Seq<char>) -> bool {
    &&& Some(d.port as nat) == uint_of(fw(line, 0, 4), 0xff)
    &&& Some(d.status) == PoEStatus::of(fw(line, 11, 21))
    &&& Some(d.priority) == PoEPriority::of(fw(line, 22, 30))
    &&& Some(d.class) == PoEClass::of(fw(line, 31, 38))
    &&& d.reason@ == fw_rest(line, 39)
}

/// Parses the answer to `debug ilpower port status`.
pub fn parse_poe_debug(data: &str) -> (r: Result<Vec<PoEDebug>, Error>)
    ensures
        r is Ok <==> (forall|i: int|
            0 <= i < lines_of(data@).len() && debug_row(#[trigger] lines_of(data@)[i]) ==> debug_ok(
                lines_of(data@)[i],
            )),
        r matches Ok(v) ==> v@.len() == debug_rows(lines_of(data@)).len() && forall|i: int|
            0 <= i < v@.len() ==> debug_from(#[trigger] v@[i], debug_rows(lines_of(data@))[i]),
{
    let lines = lines_exec(data);
    let ghost lv = lines_of(data@);
    let mut out: Vec<PoEDebug> = Vec::new();
    let mut i: usize = 0;
    while i < lines.len()
        invariant
            lv == lines@.map_values(|x: Vec<char>| x@),
            lv == lines_of(data@),
            0 <= i <= lv.len(),
            forall|j: int| 0 <= j < i && debug_row(#[trigger] lv[j]) ==> debug_ok(lv[j]),
            out@.len() == debug_rows(lv.subrange(0, i as int)).len(),
            forall|j: int| 0 <= j < out@.len() ==> debug_from(#[trigger] out@[j], debug_rows(lv.subrange(0, i as int))[j]),
        decreases lv.len() - i,
    {
        proof {
            lemma_filter_step(lv, i as int, |l: Seq<char>| debug_row(l));
        }
        let line = lines[i].as_slice();
        assert(line@ == lv[i as int]);
        if line.len() < 39 {
            i = i + 1;
            continue;
        }
        let port = field(line, 0, 4);
        if port.len() < 1 || !all_digits_exec(port.as_slice()) {
            i = i + 1;
            continue;
        }
        let p = match parse_uint(port.as_slice(), 0xff) {
            Some(x) => x as u8,
            None => {
                return Err(Error::Malformed);
            },
        };
        let status = PoEStatus::from_chars(field(line, 11, 21).as_slice())?;
        let priority = PoEPriority::from_chars(field(line, 22, 30).as_slice())?;
        let class = PoEClass::from_chars(field(line, 31, 38).as_slice())?;
        let reason = field(line, 39, line.len());
        out.push(PoEDebug { port: p, status, priority, class, reason: string_of(reason.as_slice()) });
        i = i + 1;
    }
    assert(lv.subrange(0, lv.len() as int) == lv);
    Ok(out)
}

/// PoE configuration.
#[derive(Clone, Copy, Debug, PartialEq, Eq, Structural)]
pub struct PoEConfig {
    /// PoE Management Mode (classification vs consumption)
    pub management_mode: PoEMode,
    /// Pre-Allocation enabled?
    pub pre_allocation: bool,
    /// Power-Up sequence (staggered vs simultaneously)
    pub power_up_sequence: PoEPowerUpSequence,
}

pub open spec fn config_default() -> PoEConfig {
    PoEConfig {
        management_mode: PoEMode::Classification,
        pre_allocation: true,
        power_up_sequence: PoEPowerUpSequence::Staggered,
    }
}

impl PoEConfig {
    /// Classification mode, pre-allocation on, staggered power-up.
    pub fn default() -> (r: PoEConfig)
        ensures
            r == config_default(),
    {
        PoEConfig {
            management_mode: PoEMode::Classification,
            pre_allocation: true,
            power_up_sequence: PoEPowerUpSequence::Staggered,
        }
    }
}

/// PoE power-supply information.
#[derive(Clone, Debug)]
pub struct PoESupply {
    /// Power Supply unit (usually 0)
    pub unit: u8,
    /// Power Supply status
    pub power: String,
    /// Power Supply status
    pub status: String,
    /// Nominal Power of the power-supply in Watts
    pub nominal_power: u32,
    /// Allocated Power of the power-supply in Watts
    pub allocated_power: u32,
    /// Consumed Power of the power-supply in Watts
    pub consumed_power: u32,
    /// Available Power of the power-supply in Watts
    pub available_power: u32,
}

/// PoE port information.
#[derive(Clone, Copy, Debug, PartialEq, Eq, Structural)]
pub struct PoEPort {
    /// port number
    pub port: u8,
    /// max. power limit (mW)
    pub power_limit: i32,
    /// admin power limit (mW)
    pub admin_power_limit: i32,
    /// power (mW)
    pub power: i32,
    /// voltage (mV)
    pub voltage: i32,
    /// current (mA)
    pub current: i32,
}

pub type SupplyModel = (u8, Seq<char>, Seq<char>, u32, u32, u32, u32);

pub open spec fn supply_model(s: PoESupply) -> SupplyModel {
    (s.unit, s.power@, s.status@, s.nominal_power, s.allocated_power, s.consumed_power, s.available_power)
}

/// A line of the configuration section.
pub open spec fn config_line(cfg: PoEConfig, line: Seq<char>) -> Option<PoEConfig> {
    let kv = split(line, ":"@);
    if kv.len() < 2 {
        Some(cfg)
    } else {
        let k = trim(kv[0]);
        let v = trim(kv[1]);
        if k == "Power management mode"@ {
            match PoEMode::of(v) {
                Some(m) => Some(PoEConfig { management_mode: m, ..cfg }),
                None => None,
            }
        } else if k == "Pre-allocation"@ {
            Some(PoEConfig { pre_allocation: v == "Enabled"@, ..cfg })
        } else if k == "Power-up sequence"@ {
            match PoEPowerUpSequence::of(v) {
                Some(s) => Some(PoEConfig { power_up_sequence: s, ..cfg }),
                None => None,
            }
        } else {
            None
        }
    }
}

pub open spec fn watts(s: Seq<char>) -> Option<nat> {
    uint_of(remove_all(s, "Watts"@), 0xffff_ffff)
}

/// A line of the power-supply table: `Some(None)` when it is no data line.
pub open spec fn supply_line(line: Seq<char>) -> Option<Option<SupplyModel>> {
    if line.len() < 52 {
        Some(None)
    } else {
        match uint_of(fw(line, 0, 4), 0xff) {
            None => Some(None),
            Some(unit) => match (
                watts(fw(line, 18, 26)),
                watts(split(fw(line, 27, 42), " "@)[0]),
                watts(fw(line, 43, 51)),
                watts(fw_rest(line, 52)),
            ) {
                (Some(a), Some(b), Some(c), Some(d)) => Some(
                    Some(
                        (
                            unit as u8,
                            fw(line, 5, 10),
                            fw(line, 11, 17),
                            a as u32,
                            b as u32,
                            c as u32,
                            d as u32,
                        ),
                    ),
                ),
                _ => None,
            },
        }
    }
}

/// A line of the port table: `Some(None)` when it is no data line. The
/// limit column reads `<limit> (<admin limit>)`; all five values are
/// non-negative.
pub open spec fn port_line(line: Seq<char>) -> Option<Option<PoEPort>> {
    if line.len() < 54 {
        Some(None)
    } else {
        match uint_of(fw(line, 0, 4), 0xff) {
            None => Some(None),
            Some(p) => {
                let both = fw(line, 5, 29);
                if both.len() == 0 {
                    None
                } else {
                    let sp = split(both.subrange(0, both.len() - 1), "("@);
                    if sp.len() < 2 {
                        None
                    } else {
                        match (
                            uint_of(trim(sp[0]), 0x7fff_ffff),
                            uint_of(trim(sp[1]), 0x7fff_ffff),
                            uint_of(fw(line, 30, 40), 0x7fff_ffff),
                            uint_of(fw(line, 41, 53), 0x7fff_ffff),
                            uint_of(fw_rest(line, 54), 0x7fff_ffff),
                        ) {
                            (Some(a), Some(b), Some(c), Some(d), Some(e)) => Some(
                                Some(
                                    PoEPort {
                                        port: p as u8,
                                        power_limit: a as i32,
                                        admin_power_limit: b as i32,
                                        power: c as i32,
                                        voltage: d as i32,
                                        current: e as i32,
                                    },
                                ),
                            ),
                            _ => None,
                        }
                    }
                }
            },
        }
    }
}

/// (section, configuration, supplies, ports) after some lines.
pub type PoEState = (int, PoEConfig, Seq<SupplyModel>, Seq<PoEPort>);

pub open spec fn poe_step(st: PoEState, line: Seq<char>) -> Option<PoEState> {
    if trim(line).len() == 0 {
        Some((if st.0 < 3 { st.0 + 1 } else { st.0 }, st.1, st.2, st.3))
    } else if st.0 == 0 {
        match config_line(st.1, line) {
            Some(c) => Some((st.0, c, st.2, st.3)),
            None => None,
        }
    } else if st.0 == 1 {
        match supply_line(line) {
            None => None,
            Some(None) => Some(st),
            Some(Some(s)) => Some((st.0, st.1, st.2.push(s), st.3)),
        }
    } else if st.0 == 2 {
        match port_line(line) {
            None => None,
            Some(None) => Some(st),
            Some(Some(p)) => Some((st.0, st.1, st.2, st.3.push(p))),
        }
    } else {
        Some(st)
    }
}

pub open spec fn poe_fold(lines: Seq<Seq<char>>) -> Option<PoEState>
    decreases lines.len(),
{
    if lines.len() == 0 {
        Some((0, config_default(), seq![], seq![]))
    } else {
        match poe_fold(lines.drop_last()) {
            Some(st) => poe_step(st, lines.last()),
            None => None,
        }
    }
}

fn config_line_exec(cfg: &mut PoEConfig, line: &[char]) -> (r: Result<(), Error>)
    ensures
        match config_line(*old(cfg), line@) {
            Some(c) => r is Ok && *final(cfg) == c,
            None => r is Err,
        },
{
    proof {
        reveal_strlit(":");
    }
    let kv = split_chars(line, ":");
    let ghost kvv = kv@.map_values(|x: Vec<char>| x@);
    if kv.len() < 2 {
        return Ok(());
    }
    assert(kv@[0]@ == kvv[0] && kv@[1]@ == kvv[1]);
    let k = trim_chars(kv[0].as_slice());
    let v = trim_chars(kv[1].as_slice());
    if is_lit(k.as_slice(), "Power management mode") {
        cfg.management_mode = PoEMode::from_chars(v.as_slice())?;
        Ok(())
    } else if is_lit(k.as_slice(), "Pre-allocation") {
        cfg.pre_allocation = is_lit(v.as_slice(), "Enabled");
        Ok(())
    } else if is_lit(k.as_slice(), "Power-up sequence") {
        cfg.power_up_sequence = PoEPowerUpSequence::from_chars(v.as_slice())?;
        Ok(())
    } else {
        Err(Error::Protocol)
    }
}

fn watts_exec(s: &[char]) -> (r: Option<u32>)
    ensures
        match watts(s@) {
            Some(v) => r == Some(v as u32),
            None => r is None,
        },
{
    proof {
        reveal_strlit("Watts");
    }
    let w = chars_of("Watts");
    let d = remove_lit(s, w.as_slice());
    match parse_uint(d.as_slice(), 0xffff_ffff) {
        Some(v) => Some(v as u32),
        None => None,
    }
}

fn supply_line_exec(line: &[char]) -> (r: Result<Option<PoESupply>, Error>)
    ensures
        match supply_line(line@) {
            None => r is Err,
            Some(None) => r matches Ok(None),
            Some(Some(m)) => r matches Ok(Some(s)) && supply_model(s) == m,
        },
{
    if line.len() < 52 {
        return Ok(None);
    }
    let unit = match parse_uint(field(line, 0, 4).as_slice(), 0xff) {
        Some(x) => x as u8,
        None => {
            return Ok(None);
        },
    };
    proof {
        reveal_strlit(" ");
    }
    let alo_all = field(line, 27, 42);
    let alo_sp = split_chars(alo_all.as_slice(), " ");
    assert(alo_sp@.map_values(|x: Vec<char>| x@).len() > 0) by {
        crate::text::lemma_split_nonempty(alo_all@, " "@, 0, 0);
    }
    assert(alo_sp@[0]@ == alo_sp@.map_values(|x: Vec<char>| x@)[0]);
    let a = watts_exec(field(line, 18, 26).as_slice());
    let b = watts_exec(alo_sp[0].as_slice());
    let c = watts_exec(field(line, 43, 51).as_slice());
    let d = watts_exec(field(line, 52, line.len()).as_slice());
    match (a, b, c, d) {
        (Some(a), Some(b), Some(c), Some(d)) => Ok(
            Some(
                PoESupply {
                    unit,
                    power: string_of(field(line, 5, 10).as_slice()),
                    status: string_of(field(line, 11, 17).as_slice()),
                    nominal_power: a,
                    allocated_power: b,
                    consumed_power: c,
                    available_power: d,
                },
            ),
        ),
        _ => Err(Error::Malformed),
    }
}

fn port_line_exec(line: &[char]) -> (r: Result<Option<PoEPort>, Error>)
    ensures
        match port_line(line@) {
            None => r is Err,
            Some(None) => r matches Ok(None),
            Some(Some(p)) => r == Ok::<Option<PoEPort>, Error>(Some(p)),
        },
{
    if line.len() < 54 {
        return Ok(None);
    }
    let port = match parse_uint(field(line, 0, 4).as_slice(), 0xff) {
        Some(x) => x as u8,
        None => {
            return Ok(None);
        },
    };
    let both = field(line, 5, 29);
    if both.len() == 0 {
        return Err(Error::Malformed);
    }
    let inner = slice_of(both.as_slice(), 0, both.len() - 1);
    proof {
        reveal_strlit("(");
    }
    let sp = split_chars(inner.as_slice(), "(");
    let ghost spv = sp@.map_values(|x: Vec<char>| x@);
    if sp.len() < 2 {
        return Err(Error::Malformed);
    }
    assert(sp@[0]@ == spv[0] && sp@[1]@ == spv[1]);
    let a = parse_uint(trim_chars(sp[0].as_slice()).as_slice(), 0x7fff_ffff);
    let b = parse_uint(trim_chars(sp[1].as_slice()).as_slice(), 0x7fff_ffff);
    let c = parse_uint(field(line, 30, 40).as_slice(), 0x7fff_ffff);
    let d = parse_uint(field(line, 41, 53).as_slice(), 0x7fff_ffff);
    let e = parse_uint(field(line, 54, line.len()).as_slice(), 0x7fff_ffff);
    match (a, b, c, d, e) {
        (Some(a), Some(b), Some(c), Some(d), Some(e)) => Ok(
            Some(
                PoEPort {
                    port,
                    power_limit: a as i32,
                    admin_power_limit: b as i32,
                    power: c as i32,
                    voltage: d as i32,
                    current: e as i32,
                },
            ),
        ),
        _ => Err(Error::Malformed),
    }
}

/// Once a line is malformed, the whole answer is.
proof fn lemma_poe_stays_none(lines: Seq<Seq<char>>, i: int)
    requires
        0 <= i <= lines.len(),
        poe_fold(lines.subrange(0, i)) is None,
    ensures
        poe_fold(lines) is None,
    decreases lines.len() - i,
{
    if i == lines.len() {
        assert(lines.subrange(0, i) == lines);
    } else {
        assert(lines.subrange(0, i + 1).drop_last() == lines.subrange(0, i));
        lemma_poe_stays_none(lines, i + 1);
    }
}

/// Parses the answer to `show power inline consumption`: the configuration,
/// the power supplies and the ports.
pub fn parse_poe_info(data: &str) -> (r: Result<(PoEConfig, Vec<PoESupply>, Vec<PoEPort>), Error>)
    ensures
        match poe_fold(lines_of(data@)) {
            Some(st) => r matches Ok((c, s, p)) && c == st.1 && s@.map_values(
                |x: PoESupply| supply_model(x),
            ) == st.2 && p@ == st.3,
            None => r is Err,
        },
{
    let lines = lines_exec(data);
    let ghost lv = lines_of(data@);
    let mut step: u8 = 0;
    let mut cfg = PoEConfig::default();
    let mut supplies: Vec<PoESupply> = Vec::new();
    let mut ports: Vec<PoEPort> = Vec::new();
    let mut i: usize = 0;
    assert(supplies@.map_values(|x: PoESupply| supply_model(x)) =~= Seq::<SupplyModel>::empty());
    while i < lines.len()
        invariant
            lv == lines@.map_values(|x: Vec<char>| x@),
            lv == lines_of(data@),
            0 <= i <= lv.len(),
            step <= 3,
            poe_fold(lv.subrange(0, i as int)) == Some(
                (
                    step as int,
                    cfg,
                    supplies@.map_values(|x: PoESupply| supply_model(x)),
                    ports@,
                ),
            ),
        decreases lv.len() - i,
    {
        let line = lines[i].as_slice();
        assert(line@ == lv[i as int]);
        assert(lv.subrange(0, i + 1).drop_last() == lv.subrange(0, i as int));
        if trim_chars(line).len() == 0 {
            if step < 3 {
                step = step + 1;
            }
        } else if step == 0 {
            match config_line_exec(&mut cfg, line) {
                Ok(()) => {},
                Err(e) => {
                    proof {
                        lemma_poe_stays_none(lv, i + 1);
                    }
                    return Err(e);
                },
            }
        } else if step == 1 {
            match supply_line_exec(line) {
                Ok(None) => {},
                Ok(Some(s)) => {
                    let ghost before = supplies@;
                    supplies.push(s);
                    assert(supplies@.map_values(|x: PoESupply| supply_model(x)) == before.map_values(
                        |x: PoESupply| supply_model(x),
                    ).push(supply_model(s)));
                },
                Err(e) => {
                    proof {
                        lemma_poe_stays_none(lv, i + 1);
                    }
                    return Err(e);
                },
            }
        } else if step == 2 {
            match port_line_exec(line) {
                Ok(None) => {},
                Ok(Some(p)) => {
                    ports.push(p);
                },
                Err(e) => {
                    proof {
                        lemma_poe_stays_none(lv, i + 1);
                    }
                    return Err(e);
                },
            }
        }
        i = i + 1;
    }
    assert(lv.subrange(0, lv.len() as int) == lv);
    Ok((cfg, supplies, ports))
}

} // verus!

//! The answer to `show cable-diag interfaces`: a five-column line opens a
//! port with pair A, three-column lines add the other pairs, and a blank
//! line closes the port.
use crate::tables::{col, columns, lines_exec, lines_of, ncols};
use crate::text::{chars_of, remove_all, remove_lit, trim, trim_chars, uint_of, parse_uint};
use crate::types::{CablePairState, CablePairStatus, Error, PortSpeed};
use vstd::prelude::*;

verus! {

/// Cable diagnostic information.
#[derive(Clone, Copy, Debug)]
pub struct CableDiagnosis {
    /// port number
    pub port: u8,
    /// port speed
    pub speed: PortSpeed,
    /// information about cable pairs
    pub pair_info: [CablePairStatus; 4],
}

/// A diagnosis as (port, speed, pairs).
pub open spec fn cable_model(c: CableDiagnosis) -> (u8, PortSpeed, Seq<CablePairStatus>) {
    (c.port, c.speed, c.pair_info@)
}

pub open spec fn pair_default(p: char) -> CablePairStatus {
    CablePairStatus { pair: p, length: 0, status: CablePairState::Normal }
}

pub open spec fn cable_default() -> (u8, PortSpeed, Seq<CablePairStatus>) {
    (
        0,
        PortSpeed { auto: false, speed: 0 },
        seq![pair_default('A'), pair_default('B'), pair_default('C'), pair_default('D')],
    )
}

impl CableDiagnosis {
    /// Port 0, no speed, four pairs A-D of length 0 in state `Normal`.
    pub fn default() -> (r: CableDiagnosis)
        ensures
            cable_model(r) == cable_default(),
    {
        let r = CableDiagnosis {
            port: 0,
            speed: PortSpeed { auto: false, speed: 0 },
            pair_info: [
                CablePairStatus { pair: 'A', length: 0, status: CablePairState::Normal },
                CablePairStatus { pair: 'B', length: 0, status: CablePairState::Normal },
                CablePairStatus { pair: 'C', length: 0, status: CablePairState::Normal },
                CablePairStatus { pair: 'D', length: 0, status: CablePairState::Normal },
            ],
        };
        assert(r.pair_info@ =~= cable_default().2);
        r
    }
}

/// The pair letter: the column without `Pair `, first character.
pub open spec fn pair_name(c: Seq<char>) -> Seq<char> {
    remove_all(c, "Pair "@)
}

/// A length in centimetres: the column without its decimal point.
pub open spec fn pair_length(c: Seq<char>) -> Option<nat> {
    uint_of(remove_all(c, "."@), 0xffff_ffff)
}

/// The five-column line of a port: port, speed and pair A.
pub open spec fn port_row(line: Seq<char>) -> Option<(u8, PortSpeed, CablePairStatus)> {
    let name = pair_name(col(line, 2));
    match (
        uint_of(col(line, 0), 0xff),
        pair_length(col(line, 3)),
        PortSpeed::of(col(line, 1)),
        CablePairState::of(col(line, 4)),
    ) {
        (Some(port), Some(len), Some(speed), Some(st)) => if name.len() > 0 {
            Some((port as u8, speed, CablePairStatus { pair: name[0], length: len as u32, status: st }))
        } else {
            None
        },
        _ => None,
    }
}

pub open spec fn pair_slot(c: char) -> int {
    if c == 'A' {
        0
    } else if c == 'B' {
        1
    } else if c == 'C' {
        2
    } else if c == 'D' {
        3
    } else {
        4
    }
}

/// A three-column pair line: `None` when a column is malformed; else
/// `Some(None)` for a pair letter beyond D, or the slot and the pair.
pub open spec fn pair_row(line: Seq<char>) -> Option<Option<(int, CablePairStatus)>> {
    let name = pair_name(col(line, 0));
    match (pair_length(col(line, 1)), CablePairState::of(col(line, 2))) {
        (Some(len), Some(st)) => if name.len() == 0 {
            None
        } else if pair_slot(name[0]) > 3 {
            Some(None)
        } else {
            Some(
                Some(
                    (
                        pair_slot(name[0]),
                        CablePairStatus { pair: name[0], length: len as u32, status: st },
                    ),
                ),
            )
        },
        _ => None,
    }
}

pub type CableModel = (u8, PortSpeed, Seq<CablePairStatus>);

/// One line of the answer: the ports completed so far and the one in
/// progress, before and after it; `None` when the line is malformed.
pub open spec fn cable_step(out: Seq<CableModel>, cur: CableModel, line: Seq<char>) -> Option<
    (Seq<CableModel>, CableModel),
> {
    if ncols(line) == 5 && col(line, 0) != "Port"@ {
        match port_row(line) {
            Some((port, speed, p)) => Some((out, (port, speed, cur.2.update(0, p)))),
            None => None,
        }
    } else if ncols(line) == 3 {
        match pair_row(line) {
            None => None,
            Some(None) => Some((out, cur)),
            Some(Some((k, p))) => Some((out, (cur.0, cur.1, cur.2.update(k, p)))),
        }
    } else if trim(line).len() == 0 {
        Some(
            (
                if cur.0 > 0 {
                    out.push(cur)
                } else {
                    out
                },
                cable_default(),
            ),
        )
    } else {
        Some((out, cur))
    }
}

pub open spec fn cable_fold(lines: Seq<Seq<char>>) -> Option<(Seq<CableModel>, CableModel)>
    decreases lines.len(),
{
    if lines.len() == 0 {
        Some((seq![], cable_default()))
    } else {
        match cable_fold(lines.drop_last()) {
            Some((o, c)) => cable_step(o, c, lines.last()),
            None => None,
        }
    }
}

fn pair_length_exec(c: &[char]) -> (r: Option<u32>)
    ensures
        match pair_length(c@) {
            Some(v) => r == Some(v as u32),
            None => r is None,
        },
{
    proof {
        reveal_strlit(".");
    }
    let dot = chars_of(".");
    let d = remove_lit(c, dot.as_slice());
    match parse_uint(d.as_slice(), 0xffff_ffff) {
        Some(v) => Some(v as u32),
        None => None,
    }
}

fn pair_name_exec(c: &[char]) -> (r: Vec<char>)
    ensures
        r@ == pair_name(c@),
{
    proof {
        reveal_strlit("Pair ");
    }
    let p = chars_of("Pair ");
    remove_lit(c, p.as_slice())
}

fn set_pair(d: &mut CableDiagnosis, k: usize, p: CablePairStatus)
    requires
        k < 4,
    ensures
        cable_model(*final(d)) == (old(d).port, old(d).speed, old(d).pair_info@.update(k as int, p)),
{
    let a = d.pair_info;
    if k == 0 {
        d.pair_info = [p, a[1], a[2], a[3]];
    } else if k == 1 {
        d.pair_info = [a[0], p, a[2], a[3]];
    } else if k == 2 {
        d.pair_info = [a[0], a[1], p, a[3]];
    } else {
        d.pair_info = [a[0], a[1], a[2], p];
    }
    assert(d.pair_info@ =~= a@.update(k as int, p));
}

fn cable_line(out: &mut Vec<CableDiagnosis>, d: &mut CableDiagnosis, line: &[char]) -> (r: Result<(), Error>)
    ensures
        match cable_step(old(out)@.map_values(|c: CableDiagnosis| cable_model(c)), cable_model(*old(d)), line@) {
            Some((o, c)) => r is Ok && final(out)@.map_values(|c: CableDiagnosis| cable_model(c)) == o
                && cable_model(*final(d)) == c,
            None => r is Err,
        },
{
    let e = columns(line);
    if e.len() == 5 && !crate::text::is_lit(e[0].as_slice(), "Port") {
        let port = match parse_uint(e[0].as_slice(), 0xff) {
            Some(x) => x as u8,
            None => {
                return Err(Error::Malformed);
            },
        };
        let name = pair_name_exec(e[2].as_slice());
        if name.len() == 0 {
            return Err(Error::Malformed);
        }
        let length = match pair_length_exec(e[3].as_slice()) {
            Some(x) => x,
            None => {
                return Err(Error::Malformed);
            },
        };
        let speed = PortSpeed::from_chars(e[1].as_slice())?;
        let status = CablePairState::from_chars(e[4].as_slice())?;
        d.port = port;
        d.speed = speed;
        set_pair(d, 0, CablePairStatus { pair: name[0], length, status });
        Ok(())
    } else if e.len() == 3 {
        let name = pair_name_exec(e[0].as_slice());
        let length = match pair_length_exec(e[1].as_slice()) {
            Some(x) => x,
            None => {
                return Err(Error::Malformed);
            },
        };
        if name.len() == 0 {
            return Err(Error::Malformed);
        }
        let status = CablePairState::from_chars(e[2].as_slice())?;
        let c = name[0];
        let k: usize = if c == 'A' {
            0
        } else if c == 'B' {
            1
        } else if c == 'C' {
            2
        } else if c == 'D' {
            3
        } else {
            4
        };
        if k > 3 {
            return Ok(());
        }
        set_pair(d, k, CablePairStatus { pair: c, length, status });
        Ok(())
    } else if trim_chars(line).len() == 0 {
        let ghost before = out@;
        if d.port > 0 {
            out.push(*d);
            assert(out@.map_values(|c: CableDiagnosis| cable_model(c)) == before.map_values(
                |c: CableDiagnosis| cable_model(c),
            ).push(cable_model(*d)));
        }
        *d = CableDiagnosis::default();
        Ok(())
    } else {
        Ok(())
    }
}

/// Once a line is malformed, the whole answer is.
proof fn lemma_cable_stays_none(lines: Seq<Seq<char>>, i: int)
    requires
        0 <= i <= lines.len(),
        cable_fold(lines.subrange(0, i)) is None,
    ensures
        cable_fold(lines) is None,
    decreases lines.len() - i,
{
    if i == lines.len() {
        assert(lines.subrange(0, i) == lines);
    } else {
        assert(lines.subrange(0, i + 1).drop_last() == lines.subrange(0, i));
        lemma_cable_stays_none(lines, i + 1);
    }
}

/// Parses the answer to `show cable-diag interfaces`, for all ports or one.
pub fn parse_cable_info(data: &str) -> (r: Result<Vec<CableDiagnosis>, Error>)
    ensures
        match cable_fold(lines_of(data@)) {
            Some((o, _)) => r matches Ok(v) && v@.map_values(|c: CableDiagnosis| cable_model(c)) == o,
            None => r is Err,
        },
{
    let lines = lines_exec(data);
    let ghost lv = lines_of(data@);
    let mut out: Vec<CableDiagnosis> = Vec::new();
    let mut d = CableDiagnosis::default();
    let mut i: usize = 0;
    assert(out@.map_values(|c: CableDiagnosis| cable_model(c)) =~= Seq::<CableModel>::empty());
    while i < lines.len()
        invariant
            lv == lines@.map_values(|x: Vec<char>| x@),
            lv == lines_of(data@),
            0 <= i <= lv.len(),
            cable_fold(lv.subrange(0, i as int)) == Some(
                (out@.map_values(|c: CableDiagnosis| cable_model(c)), cable_model(d)),
            ),
        decreases lv.len() - i,
    {
        let line = lines[i].as_slice();
        assert(line@ == lv[i as int]);
        assert(lv.subrange(0, i + 1).drop_last() == lv.subrange(0, i as int));
        match cable_line(&mut out, &mut d, line) {
            Ok(()) => {},
            Err(e) => {
                proof {
                    lemma_cable_stays_none(lv, i + 1);
                }
                return Err(e);
            },
        }
        i = i + 1;
    }
    assert(lv.subrange(0, lv.len() as int) == lv);
    Ok(out)
}

/// Parses the answer to a cable diagnosis and selects one port: the first
/// diagnosis with that port number, if any.
pub fn parse_cable_info_port(data: &str, port: u8) -> (r: Result<Option<CableDiagnosis>, Error>)
    ensures
        match cable_fold(lines_of(data@)) {
            Some((o, _)) => match r {
                Ok(Some(c)) => exists|i: int|
                    0 <= i < o.len() && o[i] == cable_model(c) && c.port == port && forall|j: int|
                        0 <= j < i ==> (#[trigger] o[j]).0 != port,
                Ok(None) => forall|i: int| 0 <= i < o.len() ==> (#[trigger] o[i]).0 != port,
                Err(_) => false,
            },
            None => r is Err,
        },
{
    let v = parse_cable_info(data)?;
    let ghost o = v@.map_values(|c: CableDiagnosis| cable_model(c));
    let mut i: usize = 0;
    while i < v.len()
        invariant
            o == v@.map_values(|c: CableDiagnosis| cable_model(c)),
            cable_fold(lines_of(data@)) matches Some((o2, _)) && o2 == o,
            0 <= i <= v@.len(),
            forall|j: int| 0 <= j < i ==> (#[trigger] o[j]).0 != port,
        decreases v@.len() - i,
    {
        assert(o[i as int] == cable_model(v@[i as int]));
        if v[i].port == port {
            assert(0 <= i < o.len() && o[i as int] == cable_model(v@[i as int]) && v@[i as int].port == port);
            return Ok(Some(v[i]));
        }
        i = i + 1;
    }
    Ok(None)
}

} // verus!

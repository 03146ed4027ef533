//! The per-interface blocks of `show interfaces`: a `GigabitEthernet` line
//! opens a record, indented lines fill it, and the PAUSE-output counter line
//! closes it.
use crate::pattern::{all_upto, captures, find_values, lits_view, lemma_captures_len};
use crate::tables::{lines_exec, lines_of};
use crate::text::{
    chars_of, contains, contains_lit, is_lit, parse_uint, remove_all, remove_lit, slice_of, split,
    split_chars, starts_with, starts_with_lit, trim, trim_chars, uint_of,
};
use crate::types::{Error, MediaType, PortDuplex, PortSpeed};
use vstd::prelude::*;

verus! {

/// Port traffic statistics.
#[derive(Clone, Copy, Debug, PartialEq, Eq, Structural)]
pub struct InterfaceTrafficStatus {
    /// port number
    pub port: u8,
    /// interface is up?
    pub up: bool,
    /// duplex configuration
    pub duplex: PortDuplex,
    /// speed configuration
    pub speed: PortSpeed,
    /// media type (Fiber or Copper)
    pub media_type: MediaType,
    /// flow control
    pub flow_control: bool,
    /// received packets
    pub input_packets: u32,
    /// received bytes
    pub input_bytes: u32,
    /// received throttles
    pub input_throttles: u32,
    /// received broadcasts
    pub input_broadcasts: u32,
    /// received multicasts
    pub input_multicasts: u32,
    /// runts
    pub input_runts: u32,
    /// giants
    pub input_giants: u32,
    /// input errors
    pub input_errors: u32,
    /// input errors (CRC)
    pub input_crc: u32,
    /// input errors (frame)
    pub input_frame: u32,
    /// input errors (overrun)
    pub input_overrun: u32,
    /// input errors (ignored)
    pub input_ignored: u32,
    /// pause input
    pub input_pause: u32,
    /// input packets with dribble condition detected
    pub input_dribble: u32,
    /// output packets
    pub output_packets: u32,
    /// output bytes
    pub output_bytes: u32,
    /// output underrun
    pub output_underrun: u32,
    /// output errors
    pub output_errors: u32,
    /// output collisions
    pub output_collisions: u32,
    /// output interface resets
    pub output_interface_resets: u32,
    /// babbles
    pub output_babbles: u32,
    /// late collisions
    pub output_late_collisions: u32,
    /// deferred
    pub output_deferred: u32,
    /// paused
    pub output_paused: u32,
}

pub open spec fn its_default() -> InterfaceTrafficStatus {
    InterfaceTrafficStatus {
        port: 0,
        up: false,
        duplex: PortDuplex::Auto,
        speed: PortSpeed { auto: false, speed: 0 },
        media_type: MediaType::Copper,
        flow_control: false,
        input_packets: 0,
        input_bytes: 0,
        input_throttles: 0,
        input_broadcasts: 0,
        input_multicasts: 0,
        input_runts: 0,
        input_giants: 0,
        input_errors: 0,
        input_crc: 0,
        input_frame: 0,
        input_overrun: 0,
        input_ignored: 0,
        input_pause: 0,
        input_dribble: 0,
        output_packets: 0,
        output_bytes: 0,
        output_underrun: 0,
        output_errors: 0,
        output_collisions: 0,
        output_interface_resets: 0,
        output_babbles: 0,
        output_late_collisions: 0,
        output_deferred: 0,
        output_paused: 0,
    }
}

impl InterfaceTrafficStatus {
    /// A record with every counter zero, auto duplex, copper media.
    pub fn default() -> (r: InterfaceTrafficStatus)
        ensures
            r == its_default(),
    {
        InterfaceTrafficStatus {
            port: 0,
            up: false,
            duplex: PortDuplex::Auto,
            speed: PortSpeed { auto: false, speed: 0 },
            media_type: MediaType::Copper,
            flow_control: false,
            input_packets: 0,
            input_bytes: 0,
            input_throttles: 0,
            input_broadcasts: 0,
            input_multicasts: 0,
            input_runts: 0,
            input_giants: 0,
            input_errors: 0,
            input_crc: 0,
            input_frame: 0,
            input_overrun: 0,
            input_ignored: 0,
            input_pause: 0,
            input_dribble: 0,
            output_packets: 0,
            output_bytes: 0,
            output_underrun: 0,
            output_errors: 0,
            output_collisions: 0,
            output_interface_resets: 0,
            output_babbles: 0,
            output_late_collisions: 0,
            output_deferred: 0,
            output_paused: 0,
        }
    }
}

/// The counter lines of `show interfaces`, as digit-run patterns.
pub open spec fn counter_pattern(k: int) -> Seq<Seq<char>> {
    if k == 1 {
        seq![Seq::<char>::empty(), " packets input, "@, " bytes, "@, " throttles"@]
    } else if k == 2 {
        seq!["Received "@, " broadcasts ("@, " multicasts)"@]
    } else if k == 3 {
        seq![Seq::<char>::empty(), " runts, "@, " giants, "@, " throttles"@]
    } else if k == 4 {
        seq![Seq::<char>::empty(), " input errors, "@, " CRC, "@, " frame, "@, " overrun, "@, " ignored"@]
    } else if k == 5 {
        seq![Seq::<char>::empty(), " multicast, "@, " pause input"@]
    } else if k == 6 {
        seq![Seq::<char>::empty(), " input packets with dribble condition detected"@]
    } else if k == 7 {
        seq![Seq::<char>::empty(), " packets output, "@, " bytes, "@, " underrun"@]
    } else if k == 8 {
        seq![Seq::<char>::empty(), " output errors, "@, " collisions, "@, " interface resets"@]
    } else if k == 9 {
        seq![Seq::<char>::empty(), " babbles, "@, " late collision, "@, " deferred"@]
    } else {
        seq![Seq::<char>::empty(), " PAUSE output"@]
    }
}

/// The record after the counters of pattern `k` were read as `v`.
pub open spec fn apply_counter(st: InterfaceTrafficStatus, k: int, v: Seq<nat>) -> InterfaceTrafficStatus {
    if k == 1 {
        InterfaceTrafficStatus { input_packets: v[0] as u32, input_bytes: v[1] as u32, input_throttles: v[2] as u32, ..st }
    } else if k == 2 {
        InterfaceTrafficStatus { input_broadcasts: v[0] as u32, input_multicasts: v[1] as u32, ..st }
    } else if k == 3 {
        InterfaceTrafficStatus { input_runts: v[0] as u32, input_giants: v[1] as u32, ..st }
    } else if k == 4 {
        InterfaceTrafficStatus { input_errors: v[0] as u32, input_crc: v[1] as u32, input_frame: v[2] as u32, input_overrun: v[3] as u32, input_ignored: v[4] as u32, ..st }
    } else if k == 5 {
        InterfaceTrafficStatus { input_pause: v[1] as u32, ..st }
    } else if k == 6 {
        InterfaceTrafficStatus { input_dribble: v[0] as u32, ..st }
    } else if k == 7 {
        InterfaceTrafficStatus { output_packets: v[0] as u32, output_bytes: v[1] as u32, output_underrun: v[2] as u32, ..st }
    } else if k == 8 {
        InterfaceTrafficStatus { output_errors: v[0] as u32, output_collisions: v[1] as u32, output_interface_resets: v[2] as u32, ..st }
    } else if k == 9 {
        InterfaceTrafficStatus { output_babbles: v[0] as u32, output_late_collisions: v[1] as u32, output_deferred: v[2] as u32, ..st }
    } else {
        st
    }
}

fn counter_pattern_exec(k: usize) -> (r: Vec<Vec<char>>)
    requires
        1 <= k <= 10,
    ensures
        lits_view(r@) == counter_pattern(k as int),
{
    let mut r: Vec<Vec<char>> = Vec::new();
    if k == 1 {
        r.push(Vec::new());
        r.push(chars_of(" packets input, "));
        r.push(chars_of(" bytes, "));
        r.push(chars_of(" throttles"));
    } else if k == 2 {
        r.push(chars_of("Received "));
        r.push(chars_of(" broadcasts ("));
        r.push(chars_of(" multicasts)"));
    } else if k == 3 {
        r.push(Vec::new());
        r.push(chars_of(" runts, "));
        r.push(chars_of(" giants, "));
        r.push(chars_of(" throttles"));
    } else if k == 4 {
        r.push(Vec::new());
        r.push(chars_of(" input errors, "));
        r.push(chars_of(" CRC, "));
        r.push(chars_of(" frame, "));
        r.push(chars_of(" overrun, "));
        r.push(chars_of(" ignored"));
    } else if k == 5 {
        r.push(Vec::new());
        r.push(chars_of(" multicast, "));
        r.push(chars_of(" pause input"));
    } else if k == 6 {
        r.push(Vec::new());
        r.push(chars_of(" input packets with dribble condition detected"));
    } else if k == 7 {
        r.push(Vec::new());
        r.push(chars_of(" packets output, "));
        r.push(chars_of(" bytes, "));
        r.push(chars_of(" underrun"));
    } else if k == 8 {
        r.push(Vec::new());
        r.push(chars_of(" output errors, "));
        r.push(chars_of(" collisions, "));
        r.push(chars_of(" interface resets"));
    } else if k == 9 {
        r.push(Vec::new());
        r.push(chars_of(" babbles, "));
        r.push(chars_of(" late collision, "));
        r.push(chars_of(" deferred"));
    } else {
        r.push(Vec::new());
        r.push(chars_of(" PAUSE output"));
    }
    assert(lits_view(r@) =~= counter_pattern(k as int));
    r
}

fn apply_counter_exec(st: &mut InterfaceTrafficStatus, k: usize, w: &Vec<u64>, v: Ghost<Seq<nat>>)
    requires
        1 <= k <= 9,
        w@.len() == counter_pattern(k as int).len() - 1,
        forall|j: int| 0 <= j < w@.len() ==> #[trigger] w@[j] == v@[j] && v@[j] <= u32::MAX,
    ensures
        *final(st) == apply_counter(*old(st), k as int, v@),
{
    if k == 1 {
        st.input_packets = w[0] as u32;
        st.input_bytes = w[1] as u32;
        st.input_throttles = w[2] as u32;
    } else if k == 2 {
        st.input_broadcasts = w[0] as u32;
        st.input_multicasts = w[1] as u32;
    } else if k == 3 {
        st.input_runts = w[0] as u32;
        st.input_giants = w[1] as u32;
    } else if k == 4 {
        st.input_errors = w[0] as u32;
        st.input_crc = w[1] as u32;
        st.input_frame = w[2] as u32;
        st.input_overrun = w[3] as u32;
        st.input_ignored = w[4] as u32;
    } else if k == 5 {
        st.input_pause = w[1] as u32;
    } else if k == 6 {
        st.input_dribble = w[0] as u32;
    } else if k == 7 {
        st.output_packets = w[0] as u32;
        st.output_bytes = w[1] as u32;
        st.output_underrun = w[2] as u32;
    } else if k == 8 {
        st.output_errors = w[0] as u32;
        st.output_collisions = w[1] as u32;
        st.output_interface_resets = w[2] as u32;
    } else {
        st.output_babbles = w[0] as u32;
        st.output_late_collisions = w[1] as u32;
        st.output_deferred = w[2] as u32;
    }
}

/// The record after the counter patterns `k..=9` were applied to `line`.
pub open spec fn counters_from(st: InterfaceTrafficStatus, line: Seq<char>, k: int) -> Option<
    InterfaceTrafficStatus,
>
    decreases 10 - k,
{
    if k < 1 || k > 9 {
        Some(st)
    } else {
        match captures(line, counter_pattern(k)) {
            None => counters_from(st, line, k + 1),
            Some(v) => if all_upto(v, u32::MAX as nat) {
                counters_from(apply_counter(st, k, v), line, k + 1)
            } else {
                None
            },
        }
    }
}

/// The PAUSE-output counter: it closes the record, which is kept when it
/// has a port number.
pub open spec fn pause_step(
    out: Seq<InterfaceTrafficStatus>,
    st: InterfaceTrafficStatus,
    line: Seq<char>,
) -> Option<(Seq<InterfaceTrafficStatus>, InterfaceTrafficStatus)> {
    match captures(line, counter_pattern(10)) {
        None => Some((out, st)),
        Some(v) => if all_upto(v, u32::MAX as nat) {
            let s2 = InterfaceTrafficStatus { output_paused: v[0] as u32, ..st };
            if s2.port > 0 {
                Some((out.push(s2), its_default()))
            } else {
                Some((out, s2))
            }
        } else {
            None
        },
    }
}

/// `<duplex>-duplex, <speed>-speed, media type is <media>`.
pub open spec fn media_of(line: Seq<char>) -> Option<(PortDuplex, PortSpeed, MediaType)> {
    let sp = split(line, ", "@);
    if sp.len() < 3 || sp[2].len() < 14 {
        None
    } else {
        match (
            PortDuplex::of(remove_all(trim(sp[0]), "-duplex"@)),
            PortSpeed::of(remove_all(trim(sp[1]), "-speed"@)),
            MediaType::of(sp[2].subrange(14, sp[2].len() as int)),
        ) {
            (Some(d), Some(s), Some(m)) => Some((d, s, m)),
            _ => None,
        }
    }
}

/// `GigabitEthernet<port> is <up|down>...`: the port and whether it is up.
pub open spec fn gig_of(line: Seq<char>) -> Option<(u8, bool)> {
    let sp = split(line.subrange(15, line.len() as int), " "@);
    if sp.len() < 3 {
        None
    } else {
        match uint_of(sp[0], 0xff) {
            Some(p) => Some((p as u8, sp[2] == "up"@)),
            None => None,
        }
    }
}

pub open spec fn flow_of(line: Seq<char>) -> bool {
    line.len() >= 16 && contains(line.subrange(16, line.len() as int), "on"@)
}

/// One line of the answer: the records completed so far and the one in
/// progress before and after it; `None` when the line is malformed.
pub open spec fn iface_step(
    out: Seq<InterfaceTrafficStatus>,
    st: InterfaceTrafficStatus,
    line: Seq<char>,
) -> Option<(Seq<InterfaceTrafficStatus>, InterfaceTrafficStatus)> {
    if starts_with(line, "     "@) {
        match counters_from(st, line, 1) {
            Some(s) => pause_step(out, s, line),
            None => None,
        }
    } else if starts_with(line, "  "@) {
        if contains(line, "media type is"@) {
            match media_of(line) {
                Some((d, sp, m)) => Some(
                    (out, InterfaceTrafficStatus { duplex: d, speed: sp, media_type: m, ..st }),
                ),
                None => None,
            }
        } else if contains(line, "flow-control is"@) {
            Some((out, InterfaceTrafficStatus { flow_control: flow_of(line), ..st }))
        } else {
            Some((out, st))
        }
    } else if starts_with(line, "GigabitEthernet"@) {
        match gig_of(line) {
            Some((p, up)) => Some((out, InterfaceTrafficStatus { port: p, up: up, ..st })),
            None => None,
        }
    } else {
        Some((out, st))
    }
}

/// The lines read in order, from no records and a fresh one in progress.
pub open spec fn iface_fold(lines: Seq<Seq<char>>) -> Option<
    (Seq<InterfaceTrafficStatus>, InterfaceTrafficStatus),
>
    decreases lines.len(),
{
    if lines.len() == 0 {
        Some((seq![], its_default()))
    } else {
        match iface_fold(lines.drop_last()) {
            Some((o, s)) => iface_step(o, s, lines.last()),
            None => None,
        }
    }
}

fn counters_exec(st: &mut InterfaceTrafficStatus, line: &[char]) -> (r: Result<(), Error>)
    ensures
        match counters_from(*old(st), line@, 1) {
            Some(s) => r is Ok && *final(st) == s,
            None => r is Err,
        },
{
    let mut k: usize = 1;
    while k <= 9
        invariant
            1 <= k <= 10,
            counters_from(*old(st), line@, 1) == counters_from(*st, line@, k as int),
        decreases 10 - k,
    {
        let pat = counter_pattern_exec(k);
        match find_values(line, &pat, 0xffff_ffff) {
            Err(e) => {
                return Err(e);
            },
            Ok(None) => {},
            Ok(Some(w)) => {
                let ghost v = captures(line@, counter_pattern(k as int)).unwrap();
                proof {
                    lemma_captures_len(line@, counter_pattern(k as int));
                }
                apply_counter_exec(st, k, &w, Ghost(v));
            },
        }
        k = k + 1;
    }
    Ok(())
}

fn media_exec(line: &[char]) -> (r: Option<(PortDuplex, PortSpeed, MediaType)>)
    ensures
        r == media_of(line@),
{
    proof {
        reveal_strlit(", ");
        reveal_strlit("-duplex");
        reveal_strlit("-speed");
    }
    let sp = split_chars(line, ", ");
    let ghost spv = sp@.map_values(|x: Vec<char>| x@);
    if sp.len() < 3 || sp[2].len() < 14 {
        return None;
    }
    assert(sp@[0]@ == spv[0] && sp@[1]@ == spv[1] && sp@[2]@ == spv[2]);
    let d0 = trim_chars(sp[0].as_slice());
    let dd = chars_of("-duplex");
    let d1 = remove_lit(d0.as_slice(), dd.as_slice());
    let s0 = trim_chars(sp[1].as_slice());
    let ss = chars_of("-speed");
    let s1 = remove_lit(s0.as_slice(), ss.as_slice());
    let m = slice_of(sp[2].as_slice(), 14, sp[2].len());
    match (PortDuplex::from_chars(d1.as_slice()), PortSpeed::from_chars(s1.as_slice()), MediaType::from_chars(m.as_slice())) {
        (Ok(d), Ok(s), Ok(t)) => Some((d, s, t)),
        _ => None,
    }
}

fn gig_exec(line: &[char]) -> (r: Option<(u8, bool)>)
    requires
        line@.len() >= 15,
    ensures
        r == gig_of(line@),
{
    proof {
        reveal_strlit(" ");
    }
    let rest = slice_of(line, 15, line.len());
    let sp = split_chars(rest.as_slice(), " ");
    let ghost spv = sp@.map_values(|x: Vec<char>| x@);
    if sp.len() < 3 {
        return None;
    }
    assert(sp@[0]@ == spv[0] && sp@[2]@ == spv[2]);
    match parse_uint(sp[0].as_slice(), 0xff) {
        Some(p) => Some((p as u8, is_lit(sp[2].as_slice(), "up"))),
        None => None,
    }
}

fn iface_line(out: &mut Vec<InterfaceTrafficStatus>, st: &mut InterfaceTrafficStatus, line: &[char]) -> (r: Result<(), Error>)
    ensures
        match iface_step(old(out)@, *old(st), line@) {
            Some((o, s)) => r is Ok && final(out)@ == o && *final(st) == s,
            None => r is Err,
        },
{
    proof {
        reveal_strlit("GigabitEthernet");
    }
    if starts_with_lit(line, "     ") {
        counters_exec(st, line)?;
        let pat = counter_pattern_exec(10);
        match find_values(line, &pat, 0xffff_ffff)? {
            None => {},
            Some(w) => {
                proof {
                    lemma_captures_len(line@, counter_pattern(10));
                }
                st.output_paused = w[0] as u32;
                if st.port > 0 {
                    out.push(*st);
                    *st = InterfaceTrafficStatus::default();
                }
            },
        }
        Ok(())
    } else if starts_with_lit(line, "  ") {
        if contains_lit(line, "media type is") {
            match media_exec(line) {
                Some((d, s, m)) => {
                    st.duplex = d;
                    st.speed = s;
                    st.media_type = m;
                    Ok(())
                },
                None => Err(Error::Malformed),
            }
        } else if contains_lit(line, "flow-control is") {
            st.flow_control = line.len() >= 16 && contains_lit(slice_of(line, 16, line.len()).as_slice(), "on");
            Ok(())
        } else {
            Ok(())
        }
    } else if starts_with_lit(line, "GigabitEthernet") {
        match gig_exec(line) {
            Some((p, up)) => {
                st.port = p;
                st.up = up;
                Ok(())
            },
            None => Err(Error::Malformed),
        }
    } else {
        Ok(())
    }
}

/// Parses the answer to `show interfaces`, for all ports or one.
pub fn parse_interface_info(data: &str) -> (r: Result<Vec<InterfaceTrafficStatus>, Error>)
    ensures
        match iface_fold(lines_of(data@)) {
            Some((o, _)) => r matches Ok(v) && v@ == o,
            None => r is Err,
        },
{
    let lines = lines_exec(data);
    let ghost lv = lines_of(data@);
    let mut out: Vec<InterfaceTrafficStatus> = Vec::new();
    let mut st = InterfaceTrafficStatus::default();
    let mut i: usize = 0;
    while i < lines.len()
        invariant
            lv == lines@.map_values(|x: Vec<char>| x@),
            lv == lines_of(data@),
            0 <= i <= lv.len(),
            iface_fold(lv.subrange(0, i as int)) == Some((out@, st)),
        decreases lv.len() - i,
    {
        let line = lines[i].as_slice();
        assert(line@ == lv[i as int]);
        assert(lv.subrange(0, i + 1).drop_last() == lv.subrange(0, i as int));
        match iface_line(&mut out, &mut st, line) {
            Ok(()) => {},
            Err(e) => {
                proof {
                    lemma_fold_stays_none(lv, i + 1);
                }
                return Err(e);
            },
        }
        i = i + 1;
    }
    assert(lv.subrange(0, lv.len() as int) == lv);
    Ok(out)
}

/// Once a line is malformed, the whole answer is.
proof fn lemma_fold_stays_none(lines: Seq<Seq<char>>, i: int)
    requires
        0 <= i <= lines.len(),
        iface_fold(lines.subrange(0, i)) is None,
    ensures
        iface_fold(lines) is None,
    decreases lines.len() - i,
{
    if i == lines.len() {
        assert(lines.subrange(0, i) == lines);
    } else {
        assert(lines.subrange(0, i + 1).drop_last() == lines.subrange(0, i));
        lemma_fold_stays_none(lines, i + 1);
    }
}

/// Parses the answer to `show interfaces` and selects one port: the first
/// record with that port number, else `NotFound`.
pub fn parse_interface_info_port(data: &str, port: u8) -> (r: Result<InterfaceTrafficStatus, Error>)
    ensures
        match iface_fold(lines_of(data@)) {
            Some((o, _)) => match r {
                Ok(s) => exists|i: int|
                    0 <= i < o.len() && o[i] == s && s.port == port && forall|j: int|
                        0 <= j < i ==> (#[trigger] o[j]).port != port,
                Err(e) => e == Error::NotFound && forall|i: int|
                    0 <= i < o.len() ==> (#[trigger] o[i]).port != port,
            },
            None => r is Err,
        },
{
    let v = parse_interface_info(data)?;
    let mut i: usize = 0;
    while i < v.len()
        invariant
            iface_fold(lines_of(data@)) matches Some((o, _)) && o == v@,
            0 <= i <= v@.len(),
            forall|j: int| 0 <= j < i ==> (#[trigger] v@[j]).port != port,
        decreases v@.len() - i,
    {
        if v[i].port == port {
            assert(0 <= i < v@.len() && v@[i as int].port == port);
            return Ok(v[i]);
        }
        i = i + 1;
    }
    Err(Error::NotFound)
}

} // verus!

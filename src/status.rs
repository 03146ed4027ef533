//! The table of `show interfaces all status`. A data line is
//! `<port> <name> <state> <vlan> <duplex> <speed> <media>`, with runs of
//! spaces between the columns; the name may hold spaces and may be empty.
use crate::pattern::run_end;
use crate::tables::{lemma_filter_step, lines_exec, lines_of};
use crate::text::{all_digits, all_digits_exec, is_lit, parse_uint, slice_of, string_of, uint_of};
use crate::types::{Error, MediaType, PortDuplex, PortSpeed};
use vstd::prelude::*;

verus! {

/// Port status.
#[derive(Clone, Debug)]
pub struct InterfaceStatus {
    /// port number
    pub port: u8,
    /// port name
    pub name: String,
    /// link is up
    pub connected: bool,
    /// default VLAN ID
    pub vlan: u32,
    /// duplex configuration
    pub duplex: PortDuplex,
    /// speed configuration
    pub speed: PortSpeed,
    /// media type (copper, fiber)
    pub mediatype: MediaType,
}

/// Start of the word that ends at `e`.
pub open spec fn word_start(l: Seq<char>, e: int) -> int
    decreases e,
{
    if e <= 0 || e > l.len() || l[e - 1] == ' ' {
        e
    } else {
        word_start(l, e - 1)
    }
}

/// Start of the run of spaces that ends at `b`.
pub open spec fn space_start(l: Seq<char>, b: int) -> int
    decreases b,
{
    if b <= 0 || b > l.len() || l[b - 1] != ' ' {
        b
    } else {
        space_start(l, b - 1)
    }
}

/// End of the run of spaces that starts at `p`.
pub open spec fn space_end(l: Seq<char>, p: int) -> int
    decreases l.len() - p,
{
    if p < 0 || p >= l.len() || l[p] != ' ' {
        p
    } else {
        space_end(l, p + 1)
    }
}

/// Word boundaries from the right: `b[k]` starts and `e[k]` ends word `k`,
/// for the state (1), vlan (2), duplex (3), speed (4) and media (5) words;
/// `e[0]` is where the spaces before the state word begin.
pub open spec fn bounds(l: Seq<char>) -> (Seq<int>, Seq<int>) {
    let n = l.len() as int;
    let b5 = word_start(l, n);
    let e4 = space_start(l, b5);
    let b4 = word_start(l, e4);
    let e3 = space_start(l, b4);
    let b3 = word_start(l, e3);
    let e2 = space_start(l, b3);
    let b2 = word_start(l, e2);
    let e1 = space_start(l, b2);
    let b1 = word_start(l, e1);
    let e0 = space_start(l, b1);
    (seq![0, b1, b2, b3, b4, b5], seq![e0, e1, e2, e3, e4, n])
}

/// The columns of a data line, if `line` is one: port digits, name, state,
/// vlan digits, duplex, speed and media.
pub open spec fn status_cols(l: Seq<char>) -> Option<Seq<Seq<char>>> {
    let n = l.len() as int;
    let p = run_end(l, 0);
    let b = bounds(l).0;
    let e = bounds(l).1;
    let state = l.subrange(b[1], e[1]);
    let media = l.subrange(b[5], n);
    if {
        &&& 1 <= p < n && l[p] == ' '
        &&& b[5] < n && e[4] < b[5] && b[4] < e[4] && e[3] < b[4] && b[3] < e[3]
        &&& e[2] < b[3] && b[2] < e[2] && e[1] < b[2] && b[1] < e[1] && e[0] < b[1]
        &&& p < b[1] && (e[0] > p || b[1] - p >= 2)
        &&& all_digits(l.subrange(b[2], e[2]))
        &&& (state == "connected"@ || state == "notconnect"@)
        &&& (media == "Copper"@ || media == "Fiber"@)
    } {
        Some(
            seq![
                l.subrange(0, p),
                if e[0] > p {
                    l.subrange(space_end(l, p), e[0])
                } else {
                    Seq::<char>::empty()
                },
                state,
                l.subrange(b[2], e[2]),
                l.subrange(b[3], e[3]),
                l.subrange(b[4], e[4]),
                media,
            ],
        )
    } else {
        None
    }
}

pub open spec fn status_row(line: Seq<char>) -> bool {
    status_cols(line) is Some
}

pub open spec fn status_rows(lines: Seq<Seq<char>>) -> Seq<Seq<char>> {
    lines.filter(|l: Seq<char>| status_row(l))
}

pub open spec fn status_ok(line: Seq<char>) -> bool {
    let c = status_cols(line).unwrap();
    &&& uint_of(c[0], 0xff) is Some
    &&& uint_of(c[3], 0xffff_ffff) is Some
    &&& PortDuplex::of(c[4]) is Some
    &&& PortSpeed::of(c[5]) is Some
}

pub open spec fn status_from(s: InterfaceStatus, line: Seq<char>) -> bool {
    let c = status_cols(line).unwrap();
    &&& Some(s.port as nat) == uint_of(c[0], 0xff)
    &&& s.name@ == c[1]
    &&& s.connected == (c[2] == "connected"@)
    &&& Some(s.vlan as nat) == uint_of(c[3], 0xffff_ffff)
    &&& Some(s.duplex) == PortDuplex::of(c[4])
    &&& Some(s.speed) == PortSpeed::of(c[5])
    &&& Some(s.mediatype) == MediaType::of(c[6])
}

fn word_start_exec(l: &[char], e: usize) -> (r: usize)
    requires
        e <= l@.len(),
    ensures
        r == word_start(l@, e as int),
        r <= e,
{
    let mut k = e;
    while k > 0 && l[k - 1] != ' '
        invariant
            k <= e <= l@.len(),
            word_start(l@, k as int) == word_start(l@, e as int),
        decreases k,
    {
        k = k - 1;
    }
    k
}

fn space_start_exec(l: &[char], b: usize) -> (r: usize)
    requires
        b <= l@.len(),
    ensures
        r == space_start(l@, b as int),
        r <= b,
{
    let mut k = b;
    while k > 0 && l[k - 1] == ' '
        invariant
            k <= b <= l@.len(),
            space_start(l@, k as int) == space_start(l@, b as int),
        decreases k,
    {
        k = k - 1;
    }
    k
}

fn space_end_exec(l: &[char], p: usize) -> (r: usize)
    requires
        p <= l@.len(),
    ensures
        r == space_end(l@, p as int),
        p <= r <= l@.len(),
{
    let n = l.len();
    let mut k = p;
    while k < n && l[k] == ' '
        invariant
            n == l@.len(),
            p <= k <= n,
            space_end(l@, k as int) == space_end(l@, p as int),
        decreases n - k,
    {
        k = k + 1;
    }
    k
}

fn run_end_from_start(l: &[char]) -> (r: usize)
    ensures
        r == run_end(l@, 0),
        r <= l@.len(),
{
    let n = l.len();
    let mut k: usize = 0;
    while k < n && '0' <= l[k] && l[k] <= '9'
        invariant
            n == l@.len(),
            k <= n,
            run_end(l@, k as int) == run_end(l@, 0),
        decreases n - k,
    {
        k = k + 1;
    }
    k
}

/// The columns of a data line, or `None` when `line` is no data line.
fn status_cols_exec(l: &[char]) -> (r: Option<Vec<Vec<char>>>)
    ensures
        match status_cols(l@) {
            Some(c) => r matches Some(v) && v@.map_values(|x: Vec<char>| x@) == c,
            None => r is None,
        },
{
    let n = l.len();
    let p = run_end_from_start(l);
    if p < 1 || p >= n || l[p] != ' ' {
        return None;
    }
    let b5 = word_start_exec(l, n);
    let e4 = space_start_exec(l, b5);
    let b4 = word_start_exec(l, e4);
    let e3 = space_start_exec(l, b4);
    let b3 = word_start_exec(l, e3);
    let e2 = space_start_exec(l, b3);
    let b2 = word_start_exec(l, e2);
    let e1 = space_start_exec(l, b2);
    let b1 = word_start_exec(l, e1);
    let e0 = space_start_exec(l, b1);
    let ghost bs = bounds(l@);
    assert(bs.0 == seq![0int, b1 as int, b2 as int, b3 as int, b4 as int, b5 as int]);
    assert(bs.1 == seq![e0 as int, e1 as int, e2 as int, e3 as int, e4 as int, n as int]);
    if !(b5 < n && e4 < b5 && b4 < e4 && e3 < b4 && b3 < e3 && e2 < b3 && b2 < e2 && e1 < b2 && b1
        < e1 && e0 < b1) {
        return None;
    }
    if !(p < b1 && (e0 > p || b1 - p >= 2)) {
        return None;
    }
    let vlan = slice_of(l, b2, e2);
    if !all_digits_exec(vlan.as_slice()) {
        return None;
    }
    let state = slice_of(l, b1, e1);
    if !(is_lit(state.as_slice(), "connected") || is_lit(state.as_slice(), "notconnect")) {
        return None;
    }
    let media = slice_of(l, b5, n);
    if !(is_lit(media.as_slice(), "Copper") || is_lit(media.as_slice(), "Fiber")) {
        return None;
    }
    let name = if e0 > p {
        let q = space_end_exec(l, p);
        proof {
            lemma_space_start(l@, b1 as int);
            lemma_space_end_bound(l@, p as int, e0 as int);
        }
        slice_of(l, q, e0)
    } else {
        Vec::new()
    };
    let mut v: Vec<Vec<char>> = Vec::new();
    v.push(slice_of(l, 0, p));
    v.push(name);
    v.push(state);
    v.push(vlan);
    v.push(slice_of(l, b3, e3));
    v.push(slice_of(l, b4, e4));
    v.push(media);
    assert(v@.map_values(|x: Vec<char>| x@) =~= status_cols(l@).unwrap());
    Some(v)
}

proof fn lemma_space_start(l: Seq<char>, b: int)
    requires
        0 <= b <= l.len(),
    ensures
        space_start(l, b) > 0 ==> l[space_start(l, b) - 1] != ' ',
        0 <= space_start(l, b) <= b,
    decreases b,
{
    if b > 0 && l[b - 1] == ' ' {
        lemma_space_start(l, b - 1);
    }
}

/// The spaces after the port end before the name's last character.
proof fn lemma_space_end_bound(l: Seq<char>, p: int, e0: int)
    requires
        0 <= p < e0 <= l.len(),
        l[e0 - 1] != ' ',
    ensures
        space_end(l, p) <= e0,
    decreases e0 - p,
{
    if l[p] == ' ' {
        lemma_space_end_bound(l, p + 1, e0);
    }
}

/// Parses the answer to `show interfaces all status`; lines of another
/// shape are skipped.
pub fn parse_interface_status_info(data: &str) -> (r: Result<Vec<InterfaceStatus>, Error>)
    ensures
        r is Ok <==> (forall|i: int|
            0 <= i < lines_of(data@).len() && status_row(#[trigger] lines_of(data@)[i]) ==> status_ok(
                lines_of(data@)[i],
            )),
        r matches Ok(v) ==> v@.len() == status_rows(lines_of(data@)).len() && forall|i: int|
            0 <= i < v@.len() ==> status_from(#[trigger] v@[i], status_rows(lines_of(data@))[i]),
{
    let lines = lines_exec(data);
    let ghost lv = lines_of(data@);
    let mut out: Vec<InterfaceStatus> = Vec::new();
    let mut i: usize = 0;
    while i < lines.len()
        invariant
            lv == lines@.map_values(|x: Vec<char>| x@),
            lv == lines_of(data@),
            0 <= i <= lv.len(),
            forall|j: int| 0 <= j < i && status_row(#[trigger] lv[j]) ==> status_ok(lv[j]),
            out@.len() == status_rows(lv.subrange(0, i as int)).len(),
            forall|j: int| 0 <= j < out@.len() ==> status_from(#[trigger] out@[j], status_rows(lv.subrange(0, i as int))[j]),
        decreases lv.len() - i,
    {
        proof {
            lemma_filter_step(lv, i as int, |l: Seq<char>| status_row(l));
        }
        let line = lines[i].as_slice();
        assert(line@ == lv[i as int]);
        let c = match status_cols_exec(line) {
            Some(c) => c,
            None => {
                i = i + 1;
                continue;
            },
        };
        let ghost cv = c@.map_values(|x: Vec<char>| x@);
        assert(status_cols(line@) is Some);
        assert(cv == status_cols(line@).unwrap());
        assert(cv.len() == 7);
        assert(c@[0]@ == cv[0] && c@[1]@ == cv[1] && c@[2]@ == cv[2] && c@[3]@ == cv[3]);
        assert(c@[4]@ == cv[4] && c@[5]@ == cv[5] && c@[6]@ == cv[6]);
        let port = match parse_uint(c[0].as_slice(), 0xff) {
            Some(x) => x as u8,
            None => {
                return Err(Error::Malformed);
            },
        };
        let vlan = match parse_uint(c[3].as_slice(), 0xffff_ffff) {
            Some(x) => x as u32,
            None => {
                return Err(Error::Malformed);
            },
        };
        let duplex = PortDuplex::from_chars(c[4].as_slice())?;
        let speed = PortSpeed::from_chars(c[5].as_slice())?;
        let mediatype = MediaType::from_chars(c[6].as_slice())?;
        out.push(
            InterfaceStatus {
                port,
                name: string_of(c[1].as_slice()),
                connected: is_lit(c[2].as_slice(), "connected"),
                vlan,
                duplex,
                speed,
                mediatype,
            },
        );
        i = i + 1;
    }
    assert(lv.subrange(0, lv.len() as int) == lv);
    Ok(out)
}

} // verus!

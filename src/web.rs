//! The web management interface: the device's password obfuscation, the
//! answers of its login sequence, and the forms that change port settings.
use crate::text::{chars_of, occurs_at, occurs_at_exec, same, slice_of, string_of};
use crate::types::{Error, PoELimitMode, PoEPowerMode, PoEPriority, PortDuplex, PortSpeed};
use vstd::prelude::*;

verus! {

/// Length of an obfuscated password.
pub const TOKEN_LEN: usize = 320;

/// Number of characters of the filler alphabet.
pub const ALPHABET_LEN: u8 = 62;

/// The filler alphabet: `A-Z`, then `a-z`, then `0-9`.
pub open spec fn alpha(i: int) -> char {
    if i < 26 {
        ('A' as int + i) as char
    } else if i < 52 {
        ('a' as int + i - 26) as char
    } else {
        ('0' as int + i - 52) as char
    }
}

pub open spec fn is_alnum(c: char) -> bool {
    ('A' <= c && c <= 'Z') || ('a' <= c && c <= 'z') || ('0' <= c && c <= '9')
}

pub open spec fn digit(n: int) -> char {
    ('0' as int + n) as char
}

/// Character `x` of the obfuscated form of `pw`. Every seventh position,
/// starting at 6, carries the password from its last character backwards;
/// position 122 the tens digit of its length, 288 the units digit; every
/// other position the filler character that `fill[x]` picks.
pub open spec fn obf_char(pw: Seq<char>, fill: Seq<u8>, x: int) -> char {
    let n = pw.len() as int;
    if x % 7 == 6 && x / 7 < n {
        pw[n - 1 - x / 7]
    } else if x == 122 {
        digit((n / 10) % 10)
    } else if x == 288 {
        digit(n % 10)
    } else {
        alpha(fill[x] as int)
    }
}

pub open spec fn obfuscated(pw: Seq<char>, fill: Seq<u8>) -> Seq<char> {
    Seq::new(320, |x: int| obf_char(pw, fill, x))
}

/// A filler choice for each position, each naming a character of the
/// alphabet.
pub open spec fn valid_fill(fill: Seq<u8>) -> bool {
    fill.len() == 320 && forall|i: int| 0 <= i < 320 ==> #[trigger] fill[i] < 62
}

fn alpha_exec(i: u8) -> (c: char)
    requires
        i < 62,
    ensures
        c == alpha(i as int),
{
    if i < 26 {
        (65u8 + i) as char
    } else if i < 52 {
        (97u8 + i - 26) as char
    } else {
        (48u8 + i - 52) as char
    }
}

fn digit_exec(n: usize) -> (c: char)
    requires
        n < 10,
    ensures
        c == digit(n as int),
{
    (48u8 + n as u8) as char
}

/// The obfuscated form of `password`, with the filler characters that
/// `fill` picks.
pub fn obfuscate_password(password: &str, fill: &[u8]) -> (r: String)
    requires
        valid_fill(fill@),
    ensures
        r@ == obfuscated(password@, fill@),
{
    let pw = chars_of(password);
    let n = pw.len();
    let mut out: Vec<char> = Vec::new();
    let mut x: usize = 0;
    while x < 320
        invariant
            pw@ == password@,
            n == pw@.len(),
            valid_fill(fill@),
            0 <= x <= 320,
            out@.len() == x,
            forall|k: int| 0 <= k < x ==> #[trigger] out@[k] == obf_char(password@, fill@, k),
        decreases 320 - x,
    {
        let c = if x % 7 == 6 && x / 7 < n {
            pw[n - 1 - x / 7]
        } else if x == 122 {
            digit_exec((n / 10) % 10)
        } else if x == 288 {
            digit_exec(n % 10)
        } else {
            alpha_exec(fill[x])
        };
        out.push(c);
        x = x + 1;
    }
    assert(out@ =~= obfuscated(password@, fill@));
    string_of(out.as_slice())
}

/// Relies on `random_integer::random_u8`: for `a <= b` it returns a value
/// in `a..=b`.
#[verifier::external_body]
fn random_between(a: u8, b: u8) -> (r: u8)
    requires
        a <= b,
    ensures
        a <= r <= b,
{
    random_integer::random_u8(a, b)
}

/// The password as the web login expects it, with fresh random filler.
pub fn zyxel_password(password: &str) -> (r: String)
    ensures
        exists|fill: Seq<u8>| valid_fill(fill) && r@ == obfuscated(password@, fill),
{
    let mut fill: Vec<u8> = Vec::new();
    let mut x: usize = 0;
    while x < TOKEN_LEN
        invariant
            0 <= x <= 320,
            fill@.len() == x,
            forall|k: int| 0 <= k < x ==> #[trigger] fill@[k] < 62,
        decreases 320 - x,
    {
        fill.push(random_between(0, ALPHABET_LEN - 1));
        x = x + 1;
    }
    let r = obfuscate_password(password, fill.as_slice());
    assert(valid_fill(fill@) && r@ == obfuscated(password@, fill@));
    r
}

/// The layout of an obfuscated password: it is 320 characters long; 122
/// and 288 hold the tens and units digits of the password's length; the
/// positions 6, 13, 20, ... hold the password's characters, last first;
/// every other position holds a letter or digit of the filler alphabet.
pub proof fn lemma_obfuscation_layout(pw: Seq<char>, fill: Seq<u8>)
    requires
        valid_fill(fill),
    ensures
        obfuscated(pw, fill).len() == 320,
        obfuscated(pw, fill)[122] == digit((pw.len() as int / 10) % 10),
        obfuscated(pw, fill)[288] == digit(pw.len() as int % 10),
        forall|k: int|
            0 <= k < pw.len() && 7 * k + 6 < 320 ==> #[trigger] obfuscated(pw, fill)[7 * k + 6]
                == pw[pw.len() - 1 - k],
        forall|x: int|
            0 <= x < 320 && x != 122 && x != 288 && !(x % 7 == 6 && x / 7 < pw.len())
                ==> is_alnum(#[trigger] obfuscated(pw, fill)[x]),
{
    let r = obfuscated(pw, fill);
    assert(122int % 7 == 3);
    assert(288int % 7 == 1);
    assert forall|k: int| 0 <= k < pw.len() && 7 * k + 6 < 320 implies #[trigger] r[7 * k + 6]
        == pw[pw.len() - 1 - k] by {
        assert((7 * k + 6) % 7 == 6);
        assert((7 * k + 6) / 7 == k);
    }
    assert forall|x: int|
        0 <= x < 320 && x != 122 && x != 288 && !(x % 7 == 6 && x / 7 < pw.len()) implies is_alnum(
            #[trigger] r[x],
        ) by {
        assert(fill[x] < 62);
    }
}

/// The answer of the login check that means success.
pub open spec fn login_ok_text() -> Seq<char> {
    "\nOK\n"@
}

/// Whether the login check answered with its success marker.
pub fn login_check_ok(body: &str) -> (r: bool)
    ensures
        r == (body@ == login_ok_text()),
{
    let b = chars_of(body);
    let m = chars_of("\nOK\n");
    same(b.as_slice(), m.as_slice())
}

/// From `j` on: the first position that ends a session value, where the
/// character there is not a line break and is followed by `);`.
pub open spec fn close_from(s: Seq<char>, j: int) -> Option<int>
    decreases s.len() - j,
{
    if j < 0 || j + 3 > s.len() || s[j] == '\n' {
        None
    } else if occurs_at(s, j + 1, ");"@) {
        Some(j)
    } else {
        close_from(s, j + 1)
    }
}

/// `setCookie(?XSSID?, ?<value>?);` at `i`, each `?` any character but a
/// line break: the span of the shortest such value.
pub open spec fn cookie_at(s: Seq<char>, i: int) -> Option<(int, int)> {
    if occurs_at(s, i, "setCookie("@) && i + 20 <= s.len() && s[i + 10] != '\n' && occurs_at(
        s,
        i + 11,
        "XSSID"@,
    ) && s[i + 16] != '\n' && occurs_at(s, i + 17, ", "@) && s[i + 19] != '\n' {
        match close_from(s, i + 20) {
            Some(j) => Some((i + 20, j)),
            None => None,
        }
    } else {
        None
    }
}

pub open spec fn first_cookie(s: Seq<char>, i: int) -> Option<(int, int)>
    decreases s.len() + 1 - i,
{
    if i < 0 || i > s.len() {
        None
    } else {
        match cookie_at(s, i) {
            Some(p) => Some(p),
            None => first_cookie(s, i + 1),
        }
    }
}

/// The session identifier that a page sets, if it sets one.
pub open spec fn session_of(s: Seq<char>) -> Option<Seq<char>> {
    match first_cookie(s, 0) {
        Some((a, b)) => Some(s.subrange(a, b)),
        None => None,
    }
}

proof fn lemma_close_bound(s: Seq<char>, j: int)
    requires
        0 <= j,
        close_from(s, j) is Some,
    ensures
        j <= close_from(s, j).unwrap() && close_from(s, j).unwrap() + 3 <= s.len(),
    decreases s.len() - j,
{
    if !occurs_at(s, j + 1, ");"@) {
        lemma_close_bound(s, j + 1);
    }
}

fn close_exec(s: &[char], j: usize) -> (r: Option<usize>)
    requires
        j <= s@.len(),
    ensures
        match close_from(s@, j as int) {
            Some(k) => r == Some(k as usize),
            None => r is None,
        },
{
    proof {
        reveal_strlit(");");
    }
    let close = chars_of(");");
    let n = s.len();
    let mut k = j;
    while n >= 3 && k <= n - 3
        invariant
            n == s@.len(),
            close@ == ");"@,
            j <= k,
            close_from(s@, j as int) == close_from(s@, k as int),
        decreases n - k,
    {
        if s[k] == '\n' {
            return None;
        }
        if occurs_at_exec(s, k + 1, close.as_slice()) {
            return Some(k);
        }
        k = k + 1;
    }
    None
}

fn cookie_at_exec(s: &[char], i: usize) -> (r: Option<(usize, usize)>)
    requires
        i <= s@.len(),
    ensures
        match cookie_at(s@, i as int) {
            Some((a, b)) => r == Some((a as usize, b as usize)),
            None => r is None,
        },
{
    let n = s.len();
    let head = chars_of("setCookie(");
    let name = chars_of("XSSID");
    let sep = chars_of(", ");
    if !occurs_at_exec(s, i, head.as_slice()) || n < 20 || i > n - 20 {
        return None;
    }
    if s[i + 10] == '\n' || !occurs_at_exec(s, i + 11, name.as_slice()) || s[i + 16] == '\n'
        || !occurs_at_exec(s, i + 17, sep.as_slice()) || s[i + 19] == '\n' {
        return None;
    }
    match close_exec(s, i + 20) {
        Some(j) => Some((i + 20, j)),
        None => None,
    }
}

/// Extracts the session identifier from the page that `cmd=1` returns:
/// the value of the leftmost `setCookie('XSSID', '<value>');`.
pub fn parse_session(html: &str) -> (r: Result<String, Error>)
    ensures
        match session_of(html@) {
            Some(v) => r matches Ok(x) && x@ == v,
            None => r == Err::<String, Error>(Error::NotFound),
        },
{
    let s = chars_of(html);
    let n = s.len();
    let mut i: usize = 0;
    while i <= n
        invariant
            s@ == html@,
            n == s@.len(),
            0 <= i <= n + 1,
            first_cookie(s@, 0) == first_cookie(s@, i as int),
        ensures
            first_cookie(s@, 0) is None,
        decreases n + 1 - i,
    {
        match cookie_at_exec(s.as_slice(), i) {
            Some((a, b)) => {
                proof {
                    lemma_close_bound(s@, i + 20);
                }
                let v = slice_of(s.as_slice(), a, b);
                return Ok(string_of(v.as_slice()));
            },
            None => {},
        }
        if i == n {
            assert(first_cookie(s@, n + 1) is None);
            break;
        }
        i = i + 1;
    }
    Err(Error::NotFound)
}

/// The decimal digits of `n`.
pub open spec fn nat_text(n: nat) -> Seq<char>
    decreases n,
{
    if n < 10 {
        seq![digit(n as int)]
    } else {
        nat_text(n / 10) + seq![digit((n % 10) as int)]
    }
}

fn push_nat(v: &mut Vec<char>, n: u64)
    ensures
        final(v)@ == old(v)@ + nat_text(n as nat),
    decreases n,
{
    if n >= 10 {
        push_nat(v, n / 10);
    }
    v.push(digit_exec((n % 10) as usize));
    assert(final(v)@ =~= old(v)@ + nat_text(n as nat));
}

/// The decimal text of `n`.
pub fn decimal(n: u64) -> (r: String)
    ensures
        r@ == nat_text(n as nat),
{
    let mut v: Vec<char> = Vec::new();
    push_nat(&mut v, n);
    assert(v@ =~= nat_text(n as nat));
    string_of(v.as_slice())
}

/// The time token of the login requests: the seconds, then `000`.
pub fn time_token(secs: u64) -> (r: String)
    ensures
        r@ == nat_text(secs as nat) + "000"@,
{
    let mut v: Vec<char> = Vec::new();
    push_nat(&mut v, secs);
    v.push('0');
    v.push('0');
    v.push('0');
    proof {
        reveal_strlit("000");
    }
    assert(v@ =~= nat_text(secs as nat) + "000"@);
    string_of(v.as_slice())
}

fn owned(s: &str) -> (r: String)
    ensures
        r@ == s@,
{
    s.to_owned()
}

pub open spec fn flag(b: bool) -> Seq<char> {
    if b {
        "1"@
    } else {
        "0"@
    }
}

fn flag_exec(b: bool) -> (r: String)
    ensures
        r@ == flag(b),
{
    if b {
        owned("1")
    } else {
        owned("0")
    }
}

pub open spec fn priority_code(p: PoEPriority) -> Seq<char> {
    match p {
        PoEPriority::Critical => "0"@,
        PoEPriority::High => "1"@,
        PoEPriority::Medium => "2"@,
        PoEPriority::Low => "3"@,
    }
}

pub open spec fn power_mode_code(m: PoEPowerMode) -> Seq<char> {
    match m {
        PoEPowerMode::IEEE_802_3af => "0"@,
        PoEPowerMode::Legacy => "1"@,
        PoEPowerMode::Pre_802_3at => "2"@,
        PoEPowerMode::IEEE_802_3at => "3"@,
    }
}

/// Both limit modes are sent as `0`: the device form is only known to
/// accept that value.
pub open spec fn limit_mode_code(m: PoELimitMode) -> Seq<char> {
    "0"@
}

pub open spec fn speed_code(s: PortSpeed) -> Seq<char> {
    if s.auto {
        "0"@
    } else if s.speed >= 1000 {
        "3"@
    } else if s.speed >= 100 {
        "2"@
    } else if s.speed >= 10 {
        "1"@
    } else {
        "0"@
    }
}

pub open spec fn duplex_code(d: PortDuplex) -> Seq<char> {
    match d {
        PortDuplex::Auto => "0"@,
        PortDuplex::Full => "1"@,
        PortDuplex::Half => "2"@,
    }
}

pub open spec fn form_view(f: Seq<(String, String)>) -> Seq<(Seq<char>, Seq<char>)> {
    f.map_values(|p: (String, String)| (p.0@, p.1@))
}

fn push_field(f: &mut Vec<(String, String)>, k: &str, v: String)
    ensures
        form_view(final(f)@) == form_view(old(f)@).push((k@, v@)),
{
    let key = owned(k);
    f.push((key, v));
    assert(form_view(final(f)@) =~= form_view(old(f)@).push((k@, v@)));
}

/// The lowest and highest power limit the device takes, in milliwatts.
pub const POWER_LIMIT_MIN: i32 = 1000;

pub const POWER_LIMIT_MAX: i32 = 33000;

/// The form fields of the PoE port setting.
pub open spec fn poe_form_spec(
    port: u8,
    state: bool,
    priority: PoEPriority,
    power_mode: PoEPowerMode,
    range_detection: bool,
    limit_mode: PoELimitMode,
    power_limit: i32,
    session: Seq<char>,
) -> Seq<(Seq<char>, Seq<char>)> {
    seq![
        ("cmd"@, "775"@),
        ("portlist"@, nat_text(port as nat)),
        ("state"@, flag(state)),
        ("portPriority"@, priority_code(priority)),
        ("portPowerMode"@, power_mode_code(power_mode)),
        ("portRangeDetection"@, flag(range_detection)),
        ("portLimitMode"@, limit_mode_code(limit_mode)),
        ("portPowerLimit"@, nat_text(power_limit as nat)),
        ("poeTimeRange"@, "20"@),
        ("sysSubmit"@, "Apply"@),
        ("XSSID"@, session),
    ]
}

/// The form that sets a port's PoE configuration. A power limit outside
/// 1000..=33000 mW is refused before anything is built.
pub fn poe_form(
    port: u8,
    state: bool,
    priority: PoEPriority,
    power_mode: PoEPowerMode,
    range_detection: bool,
    limit_mode: PoELimitMode,
    power_limit: i32,
    session: &str,
) -> (r: Result<Vec<(String, String)>, Error>)
    ensures
        power_limit < 1000 || power_limit > 33000 ==> r == Err::<Vec<(String, String)>, Error>(
            Error::Precondition,
        ),
        1000 <= power_limit <= 33000 ==> (r matches Ok(f) && form_view(f@) == poe_form_spec(
            port,
            state,
            priority,
            power_mode,
            range_detection,
            limit_mode,
            power_limit,
            session@,
        )),
{
    if power_limit < POWER_LIMIT_MIN || power_limit > POWER_LIMIT_MAX {
        return Err(Error::Precondition);
    }
    let prio = match priority {
        PoEPriority::Critical => owned("0"),
        PoEPriority::High => owned("1"),
        PoEPriority::Medium => owned("2"),
        PoEPriority::Low => owned("3"),
    };
    let mode = match power_mode {
        PoEPowerMode::IEEE_802_3af => owned("0"),
        PoEPowerMode::Legacy => owned("1"),
        PoEPowerMode::Pre_802_3at => owned("2"),
        PoEPowerMode::IEEE_802_3at => owned("3"),
    };
    let mut f: Vec<(String, String)> = Vec::new();
    push_field(&mut f, "cmd", owned("775"));
    push_field(&mut f, "portlist", decimal(port as u64));
    push_field(&mut f, "state", flag_exec(state));
    push_field(&mut f, "portPriority", prio);
    push_field(&mut f, "portPowerMode", mode);
    push_field(&mut f, "portRangeDetection", flag_exec(range_detection));
    push_field(&mut f, "portLimitMode", owned("0"));
    push_field(&mut f, "portPowerLimit", decimal(power_limit as u64));
    push_field(&mut f, "poeTimeRange", owned("20"));
    push_field(&mut f, "sysSubmit", owned("Apply"));
    push_field(&mut f, "XSSID", owned(session));
    assert(form_view(f@) =~= poe_form_spec(
        port,
        state,
        priority,
        power_mode,
        range_detection,
        limit_mode,
        power_limit,
        session@,
    ));
    Ok(f)
}

/// The form fields of the port link setting.
pub open spec fn port_form_spec(
    port: u8,
    label: Seq<char>,
    enabled: bool,
    speed: PortSpeed,
    duplex: PortDuplex,
    flow_control: bool,
    session: Seq<char>,
) -> Seq<(Seq<char>, Seq<char>)> {
    seq![
        ("cmd"@, "770"@),
        ("portlist"@, nat_text(port as nat)),
        ("descp"@, label),
        ("state"@, flag(enabled)),
        ("speed"@, speed_code(speed)),
        ("duplex"@, duplex_code(duplex)),
        ("fc"@, flag(flow_control)),
        ("sysSubmit"@, "Apply"@),
        ("XSSID"@, session),
    ]
}

/// The form that sets a port's label, state, speed, duplex and flow control.
pub fn port_form(
    port: u8,
    label: &str,
    enabled: bool,
    speed: PortSpeed,
    duplex: PortDuplex,
    flow_control: bool,
    session: &str,
) -> (r: Vec<(String, String)>)
    ensures
        form_view(r@) == port_form_spec(port, label@, enabled, speed, duplex, flow_control, session@),
{
    let sp = if speed.auto {
        owned("0")
    } else if speed.speed >= 1000 {
        owned("3")
    } else if speed.speed >= 100 {
        owned("2")
    } else if speed.speed >= 10 {
        owned("1")
    } else {
        owned("0")
    };
    let dx = match duplex {
        PortDuplex::Auto => owned("0"),
        PortDuplex::Full => owned("1"),
        PortDuplex::Half => owned("2"),
    };
    let mut f: Vec<(String, String)> = Vec::new();
    push_field(&mut f, "cmd", owned("770"));
    push_field(&mut f, "portlist", decimal(port as u64));
    push_field(&mut f, "descp", owned(label));
    push_field(&mut f, "state", flag_exec(enabled));
    push_field(&mut f, "speed", sp);
    push_field(&mut f, "duplex", dx);
    push_field(&mut f, "fc", flag_exec(flow_control));
    push_field(&mut f, "sysSubmit", owned("Apply"));
    push_field(&mut f, "XSSID", owned(session));
    assert(form_view(f@) =~= port_form_spec(port, label@, enabled, speed, duplex, flow_control, session@));
    f
}

} // verus!

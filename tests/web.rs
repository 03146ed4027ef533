use gs1900::types::{Error, PoELimitMode, PoEPowerMode, PoEPriority, PortDuplex, PortSpeed};
use gs1900::web::{
    decimal, login_check_ok, obfuscate_password, parse_session, poe_form, port_form, time_token,
    zyxel_password,
};

const ALPHABET: &str = "ABCDEFGHIJKLMNOPQRSTUVWXYZabcdefghijklmnopqrstuvwxyz0123456789";

fn check_layout(pw: &str, token: &str) {
    let t: Vec<char> = token.chars().collect();
    let p: Vec<char> = pw.chars().collect();
    assert_eq!(t.len(), 320);
    let n = p.len();
    assert_eq!(t[122], char::from(b'0' + ((n / 10) % 10) as u8));
    assert_eq!(t[288], char::from(b'0' + (n % 10) as u8));
    for x in 0..320 {
        if x % 7 == 6 && x / 7 < n {
            assert_eq!(t[x], p[n - 1 - x / 7], "position {}", x);
        } else if x != 122 && x != 288 {
            assert!(ALPHABET.contains(t[x]), "position {}", x);
        }
    }
}

#[test]
fn obfuscation_of_ten_character_password() {
    let fill: Vec<u8> = (0..320).map(|i| (i % 62) as u8).collect();
    let token = obfuscate_password("abcdefghij", &fill);
    assert_eq!(token.chars().count(), 320);
    let t: Vec<char> = token.chars().collect();
    assert_eq!(t[122], '1');
    assert_eq!(t[288], '0');
    assert_eq!(t[6], 'j');
    assert_eq!(t[13], 'i');
    assert_eq!(t[69], 'a');
    assert_eq!(t[0], 'A');
    assert_eq!(t[1], 'B');
    assert_eq!(t[76], ALPHABET.chars().nth(76 % 62).unwrap());
    check_layout("abcdefghij", &token);
}

#[test]
fn obfuscation_short_password_tens_digit_zero() {
    let fill = vec![61u8; 320];
    let token = obfuscate_password("pw", &fill);
    let t: Vec<char> = token.chars().collect();
    assert_eq!(t[122], '0');
    assert_eq!(t[288], '2');
    assert_eq!(t[6], 'w');
    assert_eq!(t[13], 'p');
    assert_eq!(t[20], '9');
    check_layout("pw", &token);
}

#[test]
fn random_obfuscation_keeps_layout() {
    let a = zyxel_password("secret-password");
    let b = zyxel_password("secret-password");
    check_layout("secret-password", &a);
    check_layout("secret-password", &b);
}

#[test]
fn login_check_marker() {
    assert!(login_check_ok("\nOK\n"));
    assert!(!login_check_ok("OK"));
    assert!(!login_check_ok("\nOK\n\n"));
}

#[test]
fn session_cookie_extraction() {
    let page = "<script>\nsetCookie('XSSID', 'a1b2c3');\nsetCookie('XSSID', 'other');</script>";
    assert_eq!(parse_session(page).unwrap(), "a1b2c3");
    assert_eq!(parse_session("setCookie(\"XSSID\", \"q\");").unwrap(), "q");
    assert_eq!(parse_session("setCookie('XSSID', '');").unwrap(), "");
    assert_eq!(parse_session("<html>no session</html>").unwrap_err(), Error::NotFound);
    assert_eq!(parse_session("setCookie('XSSID', 'ab\ncd');").unwrap_err(), Error::NotFound);
}

#[test]
fn decimal_and_time_token() {
    assert_eq!(decimal(0), "0");
    assert_eq!(decimal(33000), "33000");
    assert_eq!(decimal(u64::MAX), u64::MAX.to_string());
    assert_eq!(time_token(1600000000), "1600000000000");
}

fn field<'a>(f: &'a [(String, String)], k: &str) -> &'a str {
    &f.iter().find(|(key, _)| key == k).unwrap().1
}

#[test]
fn poe_form_fields() {
    let f = poe_form(5, true, PoEPriority::High, PoEPowerMode::IEEE_802_3at, false, PoELimitMode::User, 15400, "sid").unwrap();
    assert_eq!(f.len(), 11);
    assert_eq!(field(&f, "cmd"), "775");
    assert_eq!(field(&f, "portlist"), "5");
    assert_eq!(field(&f, "state"), "1");
    assert_eq!(field(&f, "portPriority"), "1");
    assert_eq!(field(&f, "portPowerMode"), "3");
    assert_eq!(field(&f, "portRangeDetection"), "0");
    assert_eq!(field(&f, "portLimitMode"), "0");
    assert_eq!(field(&f, "portPowerLimit"), "15400");
    assert_eq!(field(&f, "poeTimeRange"), "20");
    assert_eq!(field(&f, "sysSubmit"), "Apply");
    assert_eq!(field(&f, "XSSID"), "sid");
}

#[test]
fn poe_form_power_limit_bounds() {
    let mk = |limit: i32| poe_form(1, false, PoEPriority::Low, PoEPowerMode::Legacy, true, PoELimitMode::Classification, limit, "s");
    assert_eq!(mk(999).unwrap_err(), Error::Precondition);
    assert_eq!(mk(33001).unwrap_err(), Error::Precondition);
    assert_eq!(mk(-5).unwrap_err(), Error::Precondition);
    assert_eq!(field(&mk(1000).unwrap(), "portPowerLimit"), "1000");
    assert_eq!(field(&mk(33000).unwrap(), "portPowerLimit"), "33000");
    assert_eq!(field(&mk(1000).unwrap(), "portPriority"), "3");
    assert_eq!(field(&mk(1000).unwrap(), "portPowerMode"), "1");
}

#[test]
fn port_form_fields() {
    let f = port_form(12, "uplink", true, PortSpeed { auto: false, speed: 100 }, PortDuplex::Half, true, "sid");
    assert_eq!(f.len(), 9);
    assert_eq!(field(&f, "cmd"), "770");
    assert_eq!(field(&f, "portlist"), "12");
    assert_eq!(field(&f, "descp"), "uplink");
    assert_eq!(field(&f, "state"), "1");
    assert_eq!(field(&f, "speed"), "2");
    assert_eq!(field(&f, "duplex"), "2");
    assert_eq!(field(&f, "fc"), "1");
    let auto = port_form(1, "", false, PortSpeed { auto: true, speed: 1000 }, PortDuplex::Auto, false, "s");
    assert_eq!(field(&auto, "speed"), "0");
    assert_eq!(field(&auto, "duplex"), "0");
    let gig = port_form(1, "", false, PortSpeed { auto: false, speed: 1000 }, PortDuplex::Full, false, "s");
    assert_eq!(field(&gig, "speed"), "3");
    let slow = port_form(1, "", false, PortSpeed { auto: false, speed: 10 }, PortDuplex::Full, false, "s");
    assert_eq!(field(&slow, "speed"), "1");
}

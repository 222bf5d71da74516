//! One-time-password computation and the remaining small surfaces.

use whale_land::connection::wayland_socket_path;
use whale_land::error::Error;
use whale_land::notifier::{ItemCategory, ItemStatus, MenuEvent, MenuStatus};
use whale_land::secrets::PlainCrypto;
use whale_land::totp::{
    decode_base32, dynamic_truncation, hex_to_nibble, hotp, totp, totp_now, urldecode, Algorithm,
    TotpParameters,
};

#[test]
fn hotp_matches_published_sha1_vectors() {
    // the standard HOTP test vectors for the twenty-byte ASCII secret
    let secret = b"12345678901234567890";
    let expected = [755224u32, 287082, 359152, 969429, 338314, 254676, 287922, 162583, 399871,
        520489];
    for (count, want) in expected.iter().enumerate() {
        assert_eq!(hotp(Algorithm::Sha1, secret, count as u64, 6), *want);
    }
}

#[test]
fn totp_matches_published_vectors() {
    let secret_sha1 = b"12345678901234567890";
    assert_eq!(totp(Algorithm::Sha1, secret_sha1, 59, 30, 8), 94287082);
    assert_eq!(totp(Algorithm::Sha1, secret_sha1, 1111111109, 30, 8), 7081804);

    let secret_sha256 = b"12345678901234567890123456789012";
    assert_eq!(totp(Algorithm::Sha256, secret_sha256, 59, 30, 8), 46119246);

    let secret_sha512 = b"1234567890123456789012345678901234567890123456789012345678901234";
    assert_eq!(totp(Algorithm::Sha512, secret_sha512, 59, 30, 8), 90693936);
}

#[test]
fn totp_now_stays_in_range() {
    let code = totp_now(Algorithm::Sha1, b"key", 30, 6);
    assert!(code < 1_000_000);
}

#[test]
fn dynamic_truncation_follows_the_offset_nibble() {
    // a synthetic twenty-byte code whose last nibble selects offset 0
    let mac = [0x12u8, 0x34, 0x56, 0x78, 0, 0, 0, 0, 0, 0, 0, 0, 0, 0, 0, 0, 0, 0, 0, 0x10];
    let value = dynamic_truncation(&mac, 8);
    assert_eq!(value, 0x12345678 % 100_000_000);
}

#[test]
fn base32_decodes_and_rejects() {
    assert_eq!(decode_base32("MZXW6YTBOI").unwrap(), b"foobar");
    assert_eq!(decode_base32("mzxw6ytboi").unwrap(), b"foobar");
    assert_eq!(decode_base32("").unwrap(), b"");
    assert_eq!(decode_base32("ME").unwrap(), b"a");
    // characters outside the alphabet
    assert!(decode_base32("M1").is_none());
    assert!(decode_base32("MZXW6YTBOI=").is_none());
    // lengths no whole number of bytes encodes to
    assert!(decode_base32("M").is_none());
    assert!(decode_base32("MZX").is_none());
    assert!(decode_base32("MZXW6Y").is_none());
}

#[test]
fn urldecode_unescapes() {
    assert_eq!(urldecode(b"a%20b", false), b"a b");
    assert_eq!(urldecode(b"a+b", true), b"a b");
    assert_eq!(urldecode(b"a+b", false), b"a+b");
    assert_eq!(urldecode(b"%41%6a", false), b"Aj");
    // broken escapes pass through unchanged
    assert_eq!(urldecode(b"100%", false), b"100%");
    assert_eq!(urldecode(b"%zz", false), b"%zz");
    assert_eq!(urldecode(b"%a", false), b"%a");
    assert_eq!(urldecode(b"%aqx", false), b"%aqx");
}

#[test]
fn hex_nibbles() {
    assert_eq!(hex_to_nibble(b'0'), 0);
    assert_eq!(hex_to_nibble(b'9'), 9);
    assert_eq!(hex_to_nibble(b'a'), 10);
    assert_eq!(hex_to_nibble(b'F'), 15);
    assert_eq!(hex_to_nibble(b'g'), 0xFF);
    assert_eq!(hex_to_nibble(b' '), 0xFF);
}

#[test]
fn socket_path_requires_runtime_dir() {
    match wayland_socket_path(None, Some("wayland-1")) {
        Err(Error::MissingEnvVar { name }) => assert_eq!(name, "XDG_RUNTIME_DIR"),
        other => panic!("expected the missing-variable error, got {:?}", other),
    }
}

#[test]
fn socket_path_joins_and_defaults() {
    assert_eq!(wayland_socket_path(Some("/run/user/17"), None).unwrap(), "/run/user/17/wayland-0");
    assert_eq!(
        wayland_socket_path(Some("/run/user/17"), Some("wayland-5")).unwrap(),
        "/run/user/17/wayland-5"
    );
    // an absolute display name stands on its own
    assert_eq!(
        wayland_socket_path(Some("/run/user/17"), Some("/tmp/way")).unwrap(),
        "/tmp/way"
    );
}

#[test]
fn plain_crypto_passes_values_through() {
    let mut c = PlainCrypto::new();
    assert_eq!(c.get_name(), "plain");
    assert_eq!(c.get_session_input(), "");
    assert!(c.set_session_output(true, 0));
    assert!(!c.set_session_output(true, 3));
    assert!(!c.set_session_output(false, 0));
    assert_eq!(c.decode_secret(b"", b"hunter2").unwrap(), b"hunter2");
    assert!(c.decode_secret(b"param", b"hunter2").is_none());
}

#[test]
fn notifier_names_match_the_wire() {
    assert_eq!(ItemStatus::Active.name(), "Active");
    assert_eq!(ItemStatus::Passive.name(), "Passive");
    assert_eq!(ItemStatus::NeedsAttention.name(), "NeedsAttention");
    assert_eq!(ItemCategory::ApplicationStatus.name(), "ApplicationStatus");
    assert_eq!(MenuStatus::Normal.name(), "normal");
    assert_eq!(MenuEvent::Clicked.name(), "clicked");
    assert_eq!(MenuEvent::Hovered.name(), "hovered");
}

#[test]
fn otpauth_url_parses_fully() {
    let url = "otpauth://totp/ACME%20Co:john@example.com?secret=MZXW6YTBOI&issuer=ACME%20Co&algorithm=SHA256&digits=7&period=60";
    let p = TotpParameters::try_from_otpauth_url(url).unwrap();
    assert_eq!(p.key, b"foobar");
    assert_eq!(p.url_issuer.as_deref(), Some("ACME Co"));
    assert_eq!(p.username.as_deref(), Some("john@example.com"));
    assert_eq!(p.attrib_issuer.as_deref(), Some("ACME Co"));
    assert_eq!(p.algorithm.as_deref(), Some("SHA256"));
    assert_eq!(p.digits, Some(7));
    assert_eq!(p.period_seconds, Some(60));
}

#[test]
fn otpauth_url_minimal() {
    let p = TotpParameters::try_from_otpauth_url("otpauth://totp/?secret=ME").unwrap();
    assert_eq!(p.key, b"a");
    assert!(p.url_issuer.is_none());
    assert!(p.username.is_none());
    assert!(p.attrib_issuer.is_none());
    assert!(p.algorithm.is_none());
    assert!(p.digits.is_none());
    assert!(p.period_seconds.is_none());
}

#[test]
fn otpauth_url_without_params_keeps_label() {
    let p = TotpParameters::try_from_otpauth_url("otpauth://totp/plain?secret=ME");
    let p = p.unwrap();
    assert_eq!(p.url_issuer.as_deref(), Some("plain"));
    assert!(p.username.is_none());
}

#[test]
fn otpauth_url_rejections() {
    // wrong scheme or type prefix
    assert!(TotpParameters::try_from_otpauth_url("otpauth://hotp/x?secret=ME").is_none());
    assert!(TotpParameters::try_from_otpauth_url("https://example.com").is_none());
    // no secret at all
    assert!(TotpParameters::try_from_otpauth_url("otpauth://totp/x?digits=6").is_none());
    // a secret that is not base-32
    assert!(TotpParameters::try_from_otpauth_url("otpauth://totp/x?secret=1!").is_none());
    // digits out of range, a zero period, and unparsable numbers
    assert!(TotpParameters::try_from_otpauth_url("otpauth://totp/x?secret=ME&digits=9").is_none());
    assert!(TotpParameters::try_from_otpauth_url("otpauth://totp/x?secret=ME&digits=abc").is_none());
    assert!(TotpParameters::try_from_otpauth_url("otpauth://totp/x?secret=ME&period=0").is_none());
    assert!(TotpParameters::try_from_otpauth_url("otpauth://totp/x?secret=ME&period=x").is_none());
    // an unknown property is ignored
    assert!(TotpParameters::try_from_otpauth_url("otpauth://totp/x?secret=ME&color=red").is_some());
}

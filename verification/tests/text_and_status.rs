use cribcall_quic::entry::{setup_status, SetupStep};
use cribcall_quic::hexcode::{decode_hex, hex_string, short_hex};
use cribcall_quic::settings::{
    TransportSettings, DEFAULT_IDLE_TIMEOUT_MS, DEFAULT_MAX_UDP_PAYLOAD, DEFAULT_STREAM_WINDOW,
};
use cribcall_quic::status::CcQuicStatus;
use cribcall_quic::timer::{
    plan_shared_timers, plan_timer, TimerPlan, IDLE_SLEEP_NANOS, SLEEP_CAP_NANOS,
};

#[test]
fn default_settings_name_the_control_protocol() {
    let settings = TransportSettings::new();
    assert_eq!(CcQuicStatus::Success.code(), 0);
    assert_eq!(settings.application_protocol, "cribcall-ctrl");
}

#[test]
fn default_settings_hold_the_documented_values() {
    let settings = TransportSettings::new();
    assert!(settings.verify_peer);
    assert_eq!(settings.max_idle_timeout_ms, 30_000);
    assert_eq!(settings.max_idle_timeout_ms, DEFAULT_IDLE_TIMEOUT_MS);
    assert_eq!(settings.max_recv_udp_payload_size, 1350);
    assert_eq!(settings.max_send_udp_payload_size, DEFAULT_MAX_UDP_PAYLOAD);
    assert_eq!(settings.initial_max_data, 1_048_576);
    assert_eq!(settings.initial_max_stream_data_bidi_local, DEFAULT_STREAM_WINDOW);
    assert_eq!(settings.initial_max_stream_data_bidi_remote, DEFAULT_STREAM_WINDOW);
    assert_eq!(settings.initial_max_stream_data_uni, DEFAULT_STREAM_WINDOW);
    assert_eq!(settings.initial_max_streams_bidi, 8);
    assert_eq!(settings.initial_max_streams_uni, 4);
    assert!(settings.datagrams_enabled);
    assert_eq!(settings.datagram_recv_queue_len, 1024);
    assert_eq!(settings.datagram_send_queue_len, 1024);
    assert!(settings.pacing);
    assert_eq!(settings, TransportSettings::new());
}

#[test]
fn status_codes_are_the_documented_numbers() {
    assert_eq!(CcQuicStatus::Success.code(), 0);
    assert_eq!(CcQuicStatus::NullPointer.code(), 1);
    assert_eq!(CcQuicStatus::ConfigError.code(), 2);
    assert_eq!(CcQuicStatus::InvalidAlpn.code(), 3);
    assert_eq!(CcQuicStatus::CertLoadError.code(), 4);
    assert_eq!(CcQuicStatus::SocketError.code(), 5);
    assert_eq!(CcQuicStatus::HandshakeError.code(), 6);
    assert_eq!(CcQuicStatus::EventSendError.code(), 7);
    assert_eq!(CcQuicStatus::Internal.code(), 255);
}

#[test]
fn setup_failures_map_to_their_status() {
    assert_eq!(setup_status(SetupStep::Arguments), CcQuicStatus::NullPointer);
    assert_eq!(setup_status(SetupStep::Text), CcQuicStatus::Internal);
    assert_eq!(setup_status(SetupStep::Configuration), CcQuicStatus::ConfigError);
    assert_eq!(setup_status(SetupStep::Protocol), CcQuicStatus::InvalidAlpn);
    assert_eq!(setup_status(SetupStep::Credentials), CcQuicStatus::CertLoadError);
    assert_eq!(setup_status(SetupStep::Address), CcQuicStatus::SocketError);
    assert_eq!(setup_status(SetupStep::Socket), CcQuicStatus::SocketError);
}

#[test]
fn hex_string_writes_two_lowercase_digits_per_byte() {
    assert_eq!(hex_string(&[]), "");
    assert_eq!(hex_string(&[0x00]), "00");
    assert_eq!(hex_string(&[0x0f, 0xf0]), "0ff0");
    assert_eq!(hex_string(&[0xde, 0xad, 0xbe, 0xef]), "deadbeef");
    assert_eq!(hex_string(&[1, 2, 3, 15, 16, 255]), "0102030f10ff");
}

#[test]
fn decode_hex_reads_either_case() {
    assert_eq!(decode_hex("deadBEEF"), Some(vec![0xde, 0xad, 0xbe, 0xef]));
    assert_eq!(decode_hex(""), Some(vec![]));
    assert_eq!(decode_hex("0a"), Some(vec![10]));
}

#[test]
fn decode_hex_refuses_odd_length_and_other_characters() {
    assert_eq!(decode_hex("abc"), None);
    assert_eq!(decode_hex("zz"), None);
    assert_eq!(decode_hex("0g"), None);
    assert_eq!(decode_hex(" 0a"), None);
    assert_eq!(decode_hex("\u{e9}"), None);
    assert_eq!(decode_hex("\u{e9}a"), None);
}

#[test]
fn hex_text_reads_back_as_the_bytes() {
    let mut all: Vec<u8> = Vec::new();
    for b in 0..=255u8 {
        all.push(b);
    }
    let text = hex_string(&all);
    assert_eq!(text.len(), 512);
    assert_eq!(decode_hex(&text), Some(all));
}

#[test]
fn short_hex_keeps_short_texts_and_trims() {
    assert_eq!(short_hex(""), "");
    assert_eq!(short_hex("  abcdef  "), "abcdef");
    assert_eq!(short_hex("0123456789ab"), "0123456789ab");
}

#[test]
fn short_hex_trims_every_white_space_character() {
    let mut spaces: Vec<u32> =
        vec![0x20, 0x85, 0xa0, 0x1680, 0x2028, 0x2029, 0x202f, 0x205f, 0x3000];
    for v in 0x09..=0x0d {
        spaces.push(v);
    }
    for v in 0x2000..=0x200a {
        spaces.push(v);
    }
    assert_eq!(spaces.len(), 25);
    for v in spaces {
        let c = char::from_u32(v).unwrap();
        assert_eq!(short_hex(&format!("{}ab{}{}", c, c, c)), "ab");
        assert_eq!(short_hex(&format!("a{}b", c)), format!("a{}b", c));
    }
}

#[test]
fn short_hex_keeps_what_is_no_white_space() {
    for v in [0x08u32, 0x0e, 0x1c, 0x1f, 0x7f, 0x84, 0x86, 0x180e, 0x1fff, 0x200b, 0x2060, 0xfeff] {
        let c = char::from_u32(v).unwrap();
        let text = format!("{}ab{}", c, c);
        assert_eq!(short_hex(&text), text);
    }
}

#[test]
fn short_hex_abbreviates_long_texts() {
    assert_eq!(short_hex("0123456789abc"), "012345...9abc");
    assert_eq!(
        short_hex("\tba7816bf8f01cfea414140de5dae2223b00361a396177a9cb410ff61f20015ad\n"),
        "ba7816...15ad"
    );
}

#[test]
fn timer_due_at_once_fires_now() {
    assert_eq!(plan_timer(Some(0)), TimerPlan::FireNow);
}

#[test]
fn timer_within_the_cap_is_slept_out_then_fired() {
    assert_eq!(plan_timer(Some(1)), TimerPlan::SleepThenFire { nanos: 1 });
    assert_eq!(plan_timer(Some(5_000_000)), TimerPlan::SleepThenFire { nanos: 5_000_000 });
}

#[test]
fn timer_beyond_the_cap_sleeps_the_cap() {
    assert_eq!(plan_timer(Some(5_000_001)), TimerPlan::Sleep { nanos: SLEEP_CAP_NANOS });
    assert_eq!(plan_timer(Some(u128::MAX)), TimerPlan::Sleep { nanos: 5_000_000 });
}

#[test]
fn no_deadline_sleeps_briefly() {
    assert_eq!(plan_timer(None), TimerPlan::Sleep { nanos: IDLE_SLEEP_NANOS });
    assert_eq!(IDLE_SLEEP_NANOS, 2_000_000);
}

#[test]
fn shared_timers_sleep_to_the_nearest_deadline() {
    let plan = plan_shared_timers(&vec![Some(9_000_000), None, Some(3_000_000), Some(4_000_000)]);
    assert_eq!(plan.sleep_nanos, 3_000_000);
    assert_eq!(plan.fire, vec![false, false, true, false]);
}

#[test]
fn shared_timers_are_capped_and_idle_without_deadlines() {
    let far = plan_shared_timers(&vec![Some(9_000_000), Some(7_000_000)]);
    assert_eq!(far.sleep_nanos, 5_000_000);
    assert_eq!(far.fire, vec![false, false]);
    let none = plan_shared_timers(&vec![None, None]);
    assert_eq!(none.sleep_nanos, 2_000_000);
    assert_eq!(none.fire, vec![false, false]);
    let empty = plan_shared_timers(&vec![]);
    assert_eq!(empty.sleep_nanos, 2_000_000);
    assert!(empty.fire.is_empty());
    let due = plan_shared_timers(&vec![Some(0), Some(1), None]);
    assert_eq!(due.sleep_nanos, 0);
    assert_eq!(due.fire, vec![true, false, false]);
}

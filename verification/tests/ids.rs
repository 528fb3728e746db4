//! Identifiers.

use codex_nim_proxy::ids::rand_id;
use codex_nim_proxy::ids::rand_id_from;
use codex_nim_proxy::ids::read_nanos;
use codex_nim_proxy::ids::IdSource;

#[test]
fn an_identifier_is_spelled_from_its_number() {
    assert_eq!(rand_id_from(0), "ahwbmhgnylgze143");
    assert_eq!(rand_id_from(123456789), "jux0ratojedgne9k");
    assert_eq!(rand_id_from(u64::MAX), "p0bah8rmlobm18bq");
}

#[test]
fn a_source_counts_what_it_gives_out() {
    assert_eq!(IdSource::new().count, 0);
    let mut ids = IdSource { count: 5 };
    assert_eq!(ids.gen_id("a", 1000), "a_7y14neh8napobal0bq1wzu");
    assert_eq!(ids.gen_id("", 1000), "_8fm5s36p07a1o3ed0n6pwv");
    assert_eq!(ids.count, 7);
    let mut ids = IdSource { count: u64::MAX };
    assert_eq!(ids.gen_id("x", 0), "x_p0bah8rmlobm18bqt0fih4");
    assert_eq!(ids.count, 0);
}

#[test]
fn an_identifier_is_made_of_letters_and_digits() {
    let id = rand_id();
    assert_eq!(id.len(), 16);
    assert!(id.chars().all(|c| c.is_ascii_lowercase() || c.is_ascii_digit()));
}

#[test]
fn a_reading_of_the_clock_is_cut_to_64_bits() {
    assert_eq!(read_nanos(None), 0);
    assert_eq!(read_nanos(Some(0)), 0);
    assert_eq!(read_nanos(Some(u64::MAX as u128)), u64::MAX);
    assert_eq!(read_nanos(Some((1 << 64) + 5)), 5);
    assert_eq!(read_nanos(Some(u128::MAX)), u64::MAX);
}

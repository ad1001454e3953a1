use competency_rating::codec::{decode_ratings, encode_ratings, parse_i32_exec, parse_u64_exec,
    parse_usize_exec};
use competency_rating::model::{CompetencyRating, Rating};

fn rec(d: usize, p: usize, a: usize, c: usize, r: Rating) -> CompetencyRating {
    CompetencyRating { discipline_id: d, path_id: p, area_id: a, comp_id: c, rating: r }
}

#[test]
fn encode_one_record_exact_bytes() {
    let v = vec![rec(1, 1, 2, 3, Rating::Interest(5))];
    let out = encode_ratings(&v);
    assert_eq!(
        out,
        br#"[{"discipline_id":1,"path_id":1,"area_id":2,"comp_id":3,"rating":{"Interest":5}}]"#
            .to_vec()
    );
}

#[test]
fn encode_empty_sequence() {
    let v: Vec<CompetencyRating> = Vec::new();
    assert_eq!(encode_ratings(&v), b"[]".to_vec());
}

#[test]
fn encode_competency_and_negative_value() {
    let v = vec![rec(10, 20, 30, 40, Rating::Competency(-7))];
    let out = encode_ratings(&v);
    assert_eq!(
        out,
        br#"[{"discipline_id":10,"path_id":20,"area_id":30,"comp_id":40,"rating":{"Competency":-7}}]"#
            .to_vec()
    );
}

#[test]
fn round_trip_mixed_records() {
    let v = vec![
        rec(1, 1, 2, 3, Rating::Interest(5)),
        rec(0, 0, 0, 0, Rating::Competency(0)),
        rec(usize::MAX, 7, 8, 9, Rating::Interest(-2147483648)),
        rec(4, 5, 6, 7, Rating::Competency(2147483647)),
    ];
    let out = encode_ratings(&v);
    let back = decode_ratings(&out).expect("canonical encoding must decode");
    assert_eq!(back, v);
}

#[test]
fn round_trip_empty_sequence() {
    let v: Vec<CompetencyRating> = Vec::new();
    let out = encode_ratings(&v);
    let back = decode_ratings(&out).expect("empty array must decode");
    assert_eq!(back, v);
}

#[test]
fn decode_rejects_malformed_bodies() {
    assert!(decode_ratings(b"").is_none());
    assert!(decode_ratings(b"not json").is_none());
    assert!(decode_ratings(b"[").is_none());
    assert!(decode_ratings(b"{}").is_none());
    // non-whitespace trailing bytes after the array
    assert!(decode_ratings(b"[]x").is_none());
    assert!(decode_ratings(b"[] [").is_none());
    // an unknown field name
    assert!(
        decode_ratings(
            br#"[{"discipline":1,"path_id":1,"area_id":2,"comp_id":3,"rating":{"Interest":5}}]"#
        )
        .is_none()
    );
    // a rating value that does not fit a signed 32-bit integer
    assert!(
        decode_ratings(
            br#"[{"discipline_id":1,"path_id":1,"area_id":2,"comp_id":3,"rating":{"Interest":2147483648}}]"#
        )
        .is_none()
    );
    // an identifier far beyond any machine word
    assert!(
        decode_ratings(
            br#"[{"discipline_id":99999999999999999999999999,"path_id":1,"area_id":2,"comp_id":3,"rating":{"Interest":5}}]"#
        )
        .is_none()
    );
    // a missing closing brace
    assert!(
        decode_ratings(
            br#"[{"discipline_id":1,"path_id":1,"area_id":2,"comp_id":3,"rating":{"Interest":5}]"#
        )
        .is_none()
    );
}

#[test]
fn decode_two_records_in_order() {
    let body = br#"[{"discipline_id":1,"path_id":2,"area_id":3,"comp_id":4,"rating":{"Interest":1}},{"discipline_id":5,"path_id":6,"area_id":7,"comp_id":8,"rating":{"Competency":-3}}]"#;
    let v = decode_ratings(body).expect("two records must decode");
    assert_eq!(v.len(), 2);
    assert_eq!(v[0], rec(1, 2, 3, 4, Rating::Interest(1)));
    assert_eq!(v[1], rec(5, 6, 7, 8, Rating::Competency(-3)));
}

#[test]
fn number_parsers_read_maximal_digit_runs() {
    let (v, rest) = parse_u64_exec(b"18446744073709551615,").expect("max value fits");
    assert_eq!(v, u64::MAX);
    assert_eq!(rest, b",");
    assert!(parse_u64_exec(b"18446744073709551616,").is_none());
    assert!(parse_u64_exec(b"x1").is_none());
    let (v, rest) = parse_usize_exec(b"42}").expect("small id fits");
    assert_eq!(v, 42usize);
    assert_eq!(rest, b"}");
    let (v, rest) = parse_i32_exec(b"-2147483648}").expect("minimum fits");
    assert_eq!(v, i32::MIN);
    assert_eq!(rest, b"}");
    assert!(parse_i32_exec(b"-2147483649}").is_none());
    assert!(parse_i32_exec(b"-").is_none());
}

#[test]
fn decode_accepts_insignificant_whitespace() {
    assert_eq!(decode_ratings(b" [ ] "), Some(Vec::new()));
    assert_eq!(decode_ratings(b"\t[\n]\r\n"), Some(Vec::new()));
    let body = b" [ { \"discipline_id\" : 1 , \"path_id\" : 1 , \"area_id\" : 2 ,
        \"comp_id\" : 3 , \"rating\" : { \"Interest\" : 5 } } ] ";
    let v = decode_ratings(body).expect("whitespace between tokens is insignificant");
    assert_eq!(v, vec![rec(1, 1, 2, 3, Rating::Interest(5))]);
}

#[test]
fn decode_accepts_fields_in_any_order() {
    let body =
        br#"[{"rating":{"Competency":-7},"comp_id":3,"area_id":2,"discipline_id":1,"path_id":1}]"#;
    let v = decode_ratings(body).expect("object members may come in any order");
    assert_eq!(v, vec![rec(1, 1, 2, 3, Rating::Competency(-7))]);
}

#[test]
fn decode_rejects_duplicate_and_missing_fields() {
    // the same member twice
    assert!(
        decode_ratings(
            br#"[{"discipline_id":1,"discipline_id":1,"path_id":1,"area_id":2,"comp_id":3,"rating":{"Interest":5}}]"#
        )
        .is_none()
    );
    // one member missing
    assert!(
        decode_ratings(br#"[{"discipline_id":1,"path_id":1,"area_id":2,"comp_id":3}]"#).is_none()
    );
    // no members at all
    assert!(decode_ratings(b"[{}]").is_none());
}

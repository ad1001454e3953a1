//! The wire codec for rating sequences. A sequence is encoded as a JSON
//! array of objects with the members `discipline_id`, `path_id`, `area_id`,
//! `comp_id` (decimal integers) and `rating` (an object tagged `Interest`
//! or `Competency` carrying one signed integer); the encoder writes the
//! canonical form, without whitespace and with the members in declared
//! order. The decoder accepts the grammar: insignificant whitespace may
//! stand between any two tokens and an object's members may come in any
//! order, each exactly once; anything structurally different is rejected.
//! The round trip is proved below.

use vstd::prelude::*;
use vstd::arithmetic::div_mod::{
    lemma_div_is_ordered, lemma_div_multiples_vanish, lemma_fundamental_div_mod,
};

use crate::model::{CompetencyRating, Rating};

verus! {

// ---------------------------------------------------------------------
// Decimal numbers
// ---------------------------------------------------------------------

/// An ASCII decimal digit.
pub open spec fn is_digit(b: u8) -> bool {
    48 <= b && b <= 57
}

/// The ASCII digit for the last decimal digit of `n`.
pub open spec fn digit_of(n: nat) -> u8 {
    (48 + n % 10) as u8
}

/// The decimal digits of `n`, most significant first, no sign, no leading
/// zeros (a single `0` for zero).
pub open spec fn enc_nat(n: nat) -> Seq<u8>
    decreases n,
{
    if n < 10 {
        seq![digit_of(n)]
    } else {
        enc_nat(n / 10).push(digit_of(n))
    }
}

/// The decimal form of a signed value: a minus sign before the digits of
/// the magnitude when negative.
pub open spec fn enc_int(v: int) -> Seq<u8> {
    if v < 0 {
        seq![45u8] + enc_nat((-v) as nat)
    } else {
        enc_nat(v as nat)
    }
}

spec fn all_digits(s: Seq<u8>) -> bool {
    forall|i: int| 0 <= i < s.len() ==> is_digit(s[i])
}

proof fn lemma_enc_nat_shape(n: nat)
    ensures
        enc_nat(n).len() > 0,
        all_digits(enc_nat(n)),
    decreases n,
{
    if n < 10 {
    } else {
        lemma_enc_nat_shape(n / 10);
        assert(all_digits(enc_nat(n))) by {
            let s = enc_nat(n / 10);
            let e = enc_nat(n);
            assert(e =~= s.push(digit_of(n)));
            assert forall|i: int| 0 <= i < e.len() implies is_digit(e[i]) by {
                if i < s.len() {
                    assert(is_digit(s[i]));
                }
            }
        }
    }
}

/// The value of the digit run `s` read after an accumulator `acc`.
spec fn digits_val(s: Seq<u8>, acc: int) -> int
    decreases s.len(),
{
    if s.len() == 0 {
        acc
    } else {
        digits_val(s.drop_first(), acc * 10 + (s[0] - 48))
    }
}

proof fn lemma_digits_val_push(s: Seq<u8>, c: u8, acc: int)
    ensures
        digits_val(s.push(c), acc) == digits_val(s, acc) * 10 + (c - 48),
    decreases s.len(),
{
    if s.len() == 0 {
        assert(s.push(c)[0] == c);
        assert(s.push(c).drop_first() =~= Seq::<u8>::empty());
        assert(digits_val(s.push(c), acc) == digits_val(
            Seq::<u8>::empty(),
            acc * 10 + (c - 48),
        ));
        assert(digits_val(Seq::<u8>::empty(), acc * 10 + (c - 48)) == acc * 10 + (c - 48));
    } else {
        assert(s.push(c)[0] == s[0]);
        assert(s.push(c).drop_first() =~= s.drop_first().push(c));
        assert(digits_val(s.push(c), acc) == digits_val(
            s.drop_first().push(c),
            acc * 10 + (s[0] - 48),
        ));
        lemma_digits_val_push(s.drop_first(), c, acc * 10 + (s[0] - 48));
    }
}

proof fn lemma_digits_val_mono(s: Seq<u8>, acc: int)
    requires
        acc >= 0,
        all_digits(s),
    ensures
        digits_val(s, acc) >= acc,
    decreases s.len(),
{
    if s.len() == 0 {
    } else {
        assert(is_digit(s[0]));
        assert(all_digits(s.drop_first())) by {
            assert forall|i: int| 0 <= i < s.drop_first().len() implies is_digit(
                s.drop_first()[i],
            ) by {
                assert(s.drop_first()[i] == s[i + 1]);
            }
        }
        lemma_digits_val_mono(s.drop_first(), acc * 10 + (s[0] - 48));
    }
}

proof fn lemma_enc_nat_val(n: nat)
    ensures
        digits_val(enc_nat(n), 0) == n,
    decreases n,
{
    if n < 10 {
        assert(seq![digit_of(n)].drop_first() =~= Seq::<u8>::empty());
        assert(digits_val(enc_nat(n), 0) == digits_val(
            Seq::<u8>::empty(),
            0 * 10 + (digit_of(n) - 48),
        ));
        assert(digit_of(n) - 48 == n);
    } else {
        lemma_enc_nat_val(n / 10);
        lemma_digits_val_push(enc_nat(n / 10), digit_of(n), 0);
        assert(digits_val(enc_nat(n), 0) == (n / 10) * 10 + (digit_of(n) - 48));
        assert(digit_of(n) - 48 == n % 10);
        lemma_fundamental_div_mod(n as int, 10);
        assert((n / 10) * 10 + n % 10 == n);
    }
}

/// Reads a run of digits into a 64-bit accumulator, stopping at the first
/// non-digit (or the end), and failing when the value would not fit.
pub open spec fn parse_u64_rec(b: Seq<u8>, acc: u64) -> Option<(u64, Seq<u8>)>
    decreases b.len(),
{
    if b.len() > 0 && is_digit(b[0]) {
        let d = (b[0] - 48) as u64;
        if acc <= (u64::MAX - d) / 10 {
            parse_u64_rec(b.drop_first(), (acc * 10 + d) as u64)
        } else {
            None
        }
    } else {
        Some((acc, b))
    }
}

/// Reads a non-empty run of digits as an unsigned value; anything else,
/// including an empty run or an overflowing value, is rejected.
pub open spec fn parse_u64(b: Seq<u8>) -> Option<(u64, Seq<u8>)> {
    if b.len() > 0 && is_digit(b[0]) {
        parse_u64_rec(b, 0)
    } else {
        None
    }
}

proof fn lemma_parse_digits(s: Seq<u8>, acc: u64, rest: Seq<u8>)
    requires
        all_digits(s),
        rest.len() == 0 || !is_digit(rest[0]),
        digits_val(s, acc as int) <= u64::MAX,
    ensures
        parse_u64_rec(s + rest, acc) == Some((digits_val(s, acc as int) as u64, rest)),
    decreases s.len(),
{
    if s.len() == 0 {
        assert(s + rest =~= rest);
    } else {
        let b = s + rest;
        assert(b[0] == s[0]);
        let d = (s[0] - 48) as u64;
        assert(all_digits(s.drop_first())) by {
            assert forall|i: int| 0 <= i < s.drop_first().len() implies is_digit(
                s.drop_first()[i],
            ) by {
                assert(s.drop_first()[i] == s[i + 1]);
            }
        }
        lemma_digits_val_mono(s.drop_first(), acc as int * 10 + d);
        assert(digits_val(s, acc as int) == digits_val(s.drop_first(), acc as int * 10 + d));
        assert(acc as int * 10 + d <= u64::MAX);
        // the accumulator bound implies the parser's guard
        assert(acc <= (u64::MAX - d) / 10) by {
            lemma_div_is_ordered(10 * (acc as int), u64::MAX - d, 10);
            lemma_div_multiples_vanish(acc as int, 10);
        }
        assert(b.drop_first() =~= s.drop_first() + rest);
        lemma_parse_digits(s.drop_first(), (acc * 10 + d) as u64, rest);
    }
}

/// Parsing the encoding of `n`, followed by anything that does not start
/// with a digit, yields exactly `n` and that remainder.
proof fn lemma_parse_u64_rt(n: u64, rest: Seq<u8>)
    requires
        rest.len() == 0 || !is_digit(rest[0]),
    ensures
        parse_u64(enc_nat(n as nat) + rest) == Some((n, rest)),
{
    lemma_enc_nat_shape(n as nat);
    lemma_enc_nat_val(n as nat);
    lemma_parse_digits(enc_nat(n as nat), 0, rest);
    assert((enc_nat(n as nat) + rest)[0] == enc_nat(n as nat)[0]);
}

// ---------------------------------------------------------------------
// Executable number encoding and parsing
// ---------------------------------------------------------------------

/// Appends the decimal digits of `n`.
pub fn encode_u64(n: u64, out: &mut Vec<u8>)
    ensures
        final(out)@ == old(out)@ + enc_nat(n as nat),
    decreases n,
{
    if n < 10 {
        out.push(48 + n as u8);
        proof {
            assert(out@ =~= old(out)@ + enc_nat(n as nat));
        }
    } else {
        encode_u64(n / 10, out);
        out.push(48 + (n % 10) as u8);
        proof {
            assert(out@ =~= old(out)@ + enc_nat(n as nat));
        }
    }
}

/// Appends the decimal form of a usize identifier.
pub fn encode_usize(n: usize, out: &mut Vec<u8>)
    ensures
        final(out)@ == old(out)@ + enc_nat(n as nat),
{
    encode_u64(n as u64, out);
}

/// Appends the decimal form of a signed value, minus sign included.
pub fn encode_i32(v: i32, out: &mut Vec<u8>)
    ensures
        final(out)@ == old(out)@ + enc_int(v as int),
{
    if v < 0 {
        out.push(45);
        let m: u64 = (-(v as i64)) as u64;
        encode_u64(m, out);
        proof {
            assert(m as nat == (-(v as int)) as nat);
            assert(out@ =~= old(out)@ + enc_int(v as int));
        }
    } else {
        encode_u64(v as u64, out);
    }
}

/// Reads a run of digits, mirroring `parse_u64_rec`.
fn parse_u64_rec_exec<'a>(b: &'a [u8], acc: u64) -> (r: Option<(u64, &'a [u8])>)
    ensures
        match r {
            Some(p) => parse_u64_rec(b@, acc) == Some((p.0, p.1@)),
            None => parse_u64_rec(b@, acc) is None,
        },
    decreases b@.len(),
{
    if b.len() > 0 && 48 <= b[0] && b[0] <= 57 {
        let d: u64 = (b[0] - 48) as u64;
        if acc <= (u64::MAX - d) / 10 {
            proof {
                // the guard bounds the new accumulator
                lemma_fundamental_div_mod(u64::MAX - d, 10);
            }
            let rest = &b[1..b.len()];
            proof {
                assert(rest@ =~= b@.drop_first());
            }
            parse_u64_rec_exec(rest, acc * 10 + d)
        } else {
            None
        }
    } else {
        Some((acc, b))
    }
}

/// Reads a non-empty run of digits as an unsigned value.
pub fn parse_u64_exec<'a>(b: &'a [u8]) -> (r: Option<(u64, &'a [u8])>)
    ensures
        match r {
            Some(p) => parse_u64(b@) == Some((p.0, p.1@)),
            None => parse_u64(b@) is None,
        },
{
    if b.len() > 0 && 48 <= b[0] && b[0] <= 57 {
        parse_u64_rec_exec(b, 0)
    } else {
        None
    }
}


// ---------------------------------------------------------------------
// The fixed tokens of the wire format
// ---------------------------------------------------------------------

/// The bytes of `"discipline_id"`.
pub open spec fn lit_key_discipline() -> Seq<u8> {
    seq![34u8, 100, 105, 115, 99, 105, 112, 108, 105, 110, 101, 95, 105, 100, 34]
}

/// The bytes of `"path_id"`.
pub open spec fn lit_key_path() -> Seq<u8> {
    seq![34u8, 112, 97, 116, 104, 95, 105, 100, 34]
}

/// The bytes of `"area_id"`.
pub open spec fn lit_key_area() -> Seq<u8> {
    seq![34u8, 97, 114, 101, 97, 95, 105, 100, 34]
}

/// The bytes of `"comp_id"`.
pub open spec fn lit_key_comp() -> Seq<u8> {
    seq![34u8, 99, 111, 109, 112, 95, 105, 100, 34]
}

/// The bytes of `"rating"`.
pub open spec fn lit_key_rating() -> Seq<u8> {
    seq![34u8, 114, 97, 116, 105, 110, 103, 34]
}

/// The bytes of `"Interest"`.
pub open spec fn lit_tag_interest() -> Seq<u8> {
    seq![34u8, 73, 110, 116, 101, 114, 101, 115, 116, 34]
}

/// The bytes of `"Competency"`.
pub open spec fn lit_tag_competency() -> Seq<u8> {
    seq![34u8, 67, 111, 109, 112, 101, 116, 101, 110, 99, 121, 34]
}

fn key_discipline_bytes() -> (v: Vec<u8>)
    ensures
        v@ == lit_key_discipline(),
{
    let mut v: Vec<u8> = Vec::new();
    v.push(34);
    v.push(100);
    v.push(105);
    v.push(115);
    v.push(99);
    v.push(105);
    v.push(112);
    v.push(108);
    v.push(105);
    v.push(110);
    v.push(101);
    v.push(95);
    v.push(105);
    v.push(100);
    v.push(34);
    proof {
        assert(v@ =~= lit_key_discipline());
    }
    v
}

fn key_path_bytes() -> (v: Vec<u8>)
    ensures
        v@ == lit_key_path(),
{
    let mut v: Vec<u8> = Vec::new();
    v.push(34);
    v.push(112);
    v.push(97);
    v.push(116);
    v.push(104);
    v.push(95);
    v.push(105);
    v.push(100);
    v.push(34);
    proof {
        assert(v@ =~= lit_key_path());
    }
    v
}

fn key_area_bytes() -> (v: Vec<u8>)
    ensures
        v@ == lit_key_area(),
{
    let mut v: Vec<u8> = Vec::new();
    v.push(34);
    v.push(97);
    v.push(114);
    v.push(101);
    v.push(97);
    v.push(95);
    v.push(105);
    v.push(100);
    v.push(34);
    proof {
        assert(v@ =~= lit_key_area());
    }
    v
}

fn key_comp_bytes() -> (v: Vec<u8>)
    ensures
        v@ == lit_key_comp(),
{
    let mut v: Vec<u8> = Vec::new();
    v.push(34);
    v.push(99);
    v.push(111);
    v.push(109);
    v.push(112);
    v.push(95);
    v.push(105);
    v.push(100);
    v.push(34);
    proof {
        assert(v@ =~= lit_key_comp());
    }
    v
}

fn key_rating_bytes() -> (v: Vec<u8>)
    ensures
        v@ == lit_key_rating(),
{
    let mut v: Vec<u8> = Vec::new();
    v.push(34);
    v.push(114);
    v.push(97);
    v.push(116);
    v.push(105);
    v.push(110);
    v.push(103);
    v.push(34);
    proof {
        assert(v@ =~= lit_key_rating());
    }
    v
}

fn tag_interest_bytes() -> (v: Vec<u8>)
    ensures
        v@ == lit_tag_interest(),
{
    let mut v: Vec<u8> = Vec::new();
    v.push(34);
    v.push(73);
    v.push(110);
    v.push(116);
    v.push(101);
    v.push(114);
    v.push(101);
    v.push(115);
    v.push(116);
    v.push(34);
    proof {
        assert(v@ =~= lit_tag_interest());
    }
    v
}

fn tag_competency_bytes() -> (v: Vec<u8>)
    ensures
        v@ == lit_tag_competency(),
{
    let mut v: Vec<u8> = Vec::new();
    v.push(34);
    v.push(67);
    v.push(111);
    v.push(109);
    v.push(112);
    v.push(101);
    v.push(116);
    v.push(101);
    v.push(110);
    v.push(99);
    v.push(121);
    v.push(34);
    proof {
        assert(v@ =~= lit_tag_competency());
    }
    v
}


// ---------------------------------------------------------------------
// Encoding (the canonical form: no whitespace, fields in declared order)
// ---------------------------------------------------------------------

/// The wire form of one rating: an object tagged with the measurement kind,
/// carrying its signed value.
pub open spec fn enc_rating(r: Rating) -> Seq<u8> {
    match r {
        Rating::Interest(v) => seq![123u8] + lit_tag_interest() + seq![58u8] + enc_int(v as int)
            + seq![125u8],
        Rating::Competency(v) => seq![123u8] + lit_tag_competency() + seq![58u8] + enc_int(
            v as int,
        ) + seq![125u8],
    }
}

/// The wire form of one record, fields in declared order.
pub open spec fn enc_record(cr: CompetencyRating) -> Seq<u8> {
    seq![123u8] + lit_key_discipline() + seq![58u8] + enc_nat(cr.discipline_id as nat)
        + seq![44u8] + lit_key_path() + seq![58u8] + enc_nat(cr.path_id as nat) + seq![44u8]
        + lit_key_area() + seq![58u8] + enc_nat(cr.area_id as nat) + seq![44u8] + lit_key_comp()
        + seq![58u8] + enc_nat(cr.comp_id as nat) + seq![44u8] + lit_key_rating() + seq![58u8]
        + enc_rating(cr.rating) + seq![125u8]
}

/// The records of a sequence, separated by commas.
pub open spec fn enc_items(s: Seq<CompetencyRating>) -> Seq<u8>
    decreases s.len(),
{
    if s.len() == 0 {
        Seq::<u8>::empty()
    } else if s.len() == 1 {
        enc_record(s[0])
    } else {
        enc_record(s[0]) + seq![44u8] + enc_items(s.drop_first())
    }
}

/// The wire form of a whole rating sequence: a bracketed array of records.
pub open spec fn enc_ratings(s: Seq<CompetencyRating>) -> Seq<u8> {
    seq![91u8] + enc_items(s) + seq![93u8]
}

/// Appends the bytes of `lit`.
fn push_all(out: &mut Vec<u8>, lit: &Vec<u8>)
    ensures
        final(out)@ == old(out)@ + lit@,
{
    proof {
        assert(out@ =~= old(out)@ + lit@.subrange(0, 0));
    }
    let mut i: usize = 0;
    while i < lit.len()
        invariant
            0 <= i <= lit@.len(),
            out@ == old(out)@ + lit@.subrange(0, i as int),
        decreases lit@.len() - i,
    {
        out.push(lit[i]);
        i = i + 1;
        proof {
            assert(out@ =~= old(out)@ + lit@.subrange(0, i as int));
        }
    }
    proof {
        assert(lit@.subrange(0, lit@.len() as int) =~= lit@);
    }
}

/// Appends the wire form of one rating.
pub fn encode_rating(r: &Rating, out: &mut Vec<u8>)
    ensures
        final(out)@ == old(out)@ + enc_rating(*r),
{
    match r {
        Rating::Interest(v) => {
            out.push(123);
            let tag = tag_interest_bytes();
            push_all(out, &tag);
            out.push(58);
            encode_i32(*v, out);
            out.push(125);
            proof {
                assert(out@ =~= old(out)@ + enc_rating(*r));
            }
        },
        Rating::Competency(v) => {
            out.push(123);
            let tag = tag_competency_bytes();
            push_all(out, &tag);
            out.push(58);
            encode_i32(*v, out);
            out.push(125);
            proof {
                assert(out@ =~= old(out)@ + enc_rating(*r));
            }
        },
    }
}

/// Appends the wire form of one record.
pub fn encode_record(cr: &CompetencyRating, out: &mut Vec<u8>)
    ensures
        final(out)@ == old(out)@ + enc_record(*cr),
{
    out.push(123);
    let lit = key_discipline_bytes();
    push_all(out, &lit);
    out.push(58);
    encode_usize(cr.discipline_id, out);
    out.push(44);
    let lit = key_path_bytes();
    push_all(out, &lit);
    out.push(58);
    encode_usize(cr.path_id, out);
    out.push(44);
    let lit = key_area_bytes();
    push_all(out, &lit);
    out.push(58);
    encode_usize(cr.area_id, out);
    out.push(44);
    let lit = key_comp_bytes();
    push_all(out, &lit);
    out.push(58);
    encode_usize(cr.comp_id, out);
    out.push(44);
    let lit = key_rating_bytes();
    push_all(out, &lit);
    out.push(58);
    encode_rating(&cr.rating, out);
    out.push(125);
    proof {
        assert(out@ =~= old(out)@ + enc_record(*cr));
    }
}

/// Appends the wire forms of the records from index `i` on, separated by
/// commas.
fn encode_items(v: &Vec<CompetencyRating>, i: usize, out: &mut Vec<u8>)
    requires
        i <= v@.len(),
    ensures
        final(out)@ == old(out)@ + enc_items(v@.subrange(i as int, v@.len() as int)),
    decreases v@.len() - i,
{
    let ghost s = v@.subrange(i as int, v@.len() as int);
    if i == v.len() {
        proof {
            assert(s =~= Seq::<CompetencyRating>::empty());
            assert(out@ =~= old(out)@ + enc_items(s));
        }
    } else if i + 1 == v.len() {
        encode_record(&v[i], out);
        proof {
            assert(s.len() == 1);
            assert(s[0] == v@[i as int]);
        }
    } else {
        encode_record(&v[i], out);
        out.push(44);
        encode_items(v, i + 1, out);
        proof {
            assert(s[0] == v@[i as int]);
            assert(s.drop_first() =~= v@.subrange(i as int + 1, v@.len() as int));
            assert(out@ =~= old(out)@ + enc_items(s));
        }
    }
}

/// Encodes a rating sequence to its canonical wire form.
pub fn encode_ratings(v: &Vec<CompetencyRating>) -> (out: Vec<u8>)
    ensures
        out@ == enc_ratings(v@),
{
    let mut out: Vec<u8> = Vec::new();
    out.push(91);
    encode_items(v, 0, &mut out);
    out.push(93);
    proof {
        assert(v@.subrange(0, v@.len() as int) =~= v@);
        assert(out@ =~= enc_ratings(v@));
    }
    out
}

// ---------------------------------------------------------------------
// Parsing: the same grammar with insignificant whitespace between tokens
// and record fields in any order
// ---------------------------------------------------------------------

/// JSON insignificant whitespace.
pub open spec fn is_ws(b: u8) -> bool {
    b == 32 || b == 9 || b == 10 || b == 13
}

/// Drops leading whitespace.
pub open spec fn skip_ws(b: Seq<u8>) -> Seq<u8>
    decreases b.len(),
{
    if b.len() > 0 && is_ws(b[0]) {
        skip_ws(b.drop_first())
    } else {
        b
    }
}

proof fn lemma_skip_ws_len(b: Seq<u8>)
    ensures
        skip_ws(b).len() <= b.len(),
    decreases b.len(),
{
    if b.len() > 0 && is_ws(b[0]) {
        lemma_skip_ws_len(b.drop_first());
    }
}

/// Consumes `lit` from the front of `b`, or rejects.
pub open spec fn spec_expect(b: Seq<u8>, lit: Seq<u8>) -> Option<Seq<u8>> {
    if lit.len() <= b.len() && b.subrange(0, lit.len() as int) == lit {
        Some(b.subrange(lit.len() as int, b.len() as int))
    } else {
        None
    }
}

/// Reads an unsigned decimal that fits a usize identifier.
pub open spec fn parse_usize(b: Seq<u8>) -> Option<(usize, Seq<u8>)> {
    match parse_u64(b) {
        Some((v, rest)) => if v <= usize::MAX as u64 {
            Some((v as usize, rest))
        } else {
            None
        },
        None => None,
    }
}

/// Reads a signed decimal that fits the rating value type.
pub open spec fn parse_i32(b: Seq<u8>) -> Option<(i32, Seq<u8>)> {
    if b.len() > 0 && b[0] == 45 {
        match parse_u64(b.drop_first()) {
            Some((v, rest)) => if 1 <= v && v <= 2147483648u64 {
                Some(((-(v as int)) as i32, rest))
            } else {
                None
            },
            None => None,
        }
    } else {
        match parse_u64(b) {
            Some((v, rest)) => if v <= 2147483647u64 {
                Some((v as i32, rest))
            } else {
                None
            },
            None => None,
        }
    }
}

/// Reads a colon, then an identifier value, whitespace allowed around both.
pub open spec fn parse_colon_usize(b: Seq<u8>) -> Option<(usize, Seq<u8>)> {
    match spec_expect(skip_ws(b), seq![58u8]) {
        Some(b1) => parse_usize(skip_ws(b1)),
        None => None,
    }
}

/// Reads a colon, then a signed value, whitespace allowed around both.
pub open spec fn parse_colon_i32(b: Seq<u8>) -> Option<(i32, Seq<u8>)> {
    match spec_expect(skip_ws(b), seq![58u8]) {
        Some(b1) => parse_i32(skip_ws(b1)),
        None => None,
    }
}

/// Reads one tagged rating object.
pub open spec fn parse_rating(b: Seq<u8>) -> Option<(Rating, Seq<u8>)> {
    match spec_expect(skip_ws(b), seq![123u8]) {
        None => None,
        Some(b1) => {
            let b2 = skip_ws(b1);
            match spec_expect(b2, lit_tag_interest()) {
                Some(b3) => match parse_colon_i32(b3) {
                    Some((v, b4)) => match spec_expect(skip_ws(b4), seq![125u8]) {
                        Some(b5) => Some((Rating::Interest(v), b5)),
                        None => None,
                    },
                    None => None,
                },
                None => match spec_expect(b2, lit_tag_competency()) {
                    Some(b3) => match parse_colon_i32(b3) {
                        Some((v, b4)) => match spec_expect(skip_ws(b4), seq![125u8]) {
                            Some(b5) => Some((Rating::Competency(v), b5)),
                            None => None,
                        },
                        None => None,
                    },
                    None => None,
                },
            }
        },
    }
}

/// A record in the making: each field is present at most once while the
/// object's members are read, in whatever order they come.
#[derive(Clone, Copy)]
pub struct PartialRecord {
    pub discipline_id: Option<usize>,
    pub path_id: Option<usize>,
    pub area_id: Option<usize>,
    pub comp_id: Option<usize>,
    pub rating: Option<Rating>,
}

/// No field read yet.
pub open spec fn spec_no_fields() -> PartialRecord {
    PartialRecord {
        discipline_id: None,
        path_id: None,
        area_id: None,
        comp_id: None,
        rating: None,
    }
}

/// The record, once every field has been read.
pub open spec fn spec_complete(p: PartialRecord) -> Option<CompetencyRating> {
    match (p.discipline_id, p.path_id, p.area_id, p.comp_id, p.rating) {
        (Some(d), Some(pa), Some(a), Some(c), Some(r)) => Some(
            CompetencyRating {
                discipline_id: d,
                path_id: pa,
                area_id: a,
                comp_id: c,
                rating: r,
            },
        ),
        _ => None,
    }
}

/// Reads one `"key": value` member into the partial record; a key that was
/// already read, or an unknown one, is rejected.
pub open spec fn parse_field(b: Seq<u8>, p: PartialRecord) -> Option<(PartialRecord, Seq<u8>)> {
    let b0 = skip_ws(b);
    match spec_expect(b0, lit_key_discipline()) {
        Some(b1) => if p.discipline_id is Some {
            None
        } else {
            match parse_colon_usize(b1) {
                Some((v, r)) => Some(
                    (
                        PartialRecord {
                            discipline_id: Some(v),
                            path_id: p.path_id,
                            area_id: p.area_id,
                            comp_id: p.comp_id,
                            rating: p.rating,
                        },
                        r,
                    ),
                ),
                None => None,
            }
        },
        None => match spec_expect(b0, lit_key_path()) {
            Some(b1) => if p.path_id is Some {
                None
            } else {
                match parse_colon_usize(b1) {
                    Some((v, r)) => Some(
                        (
                            PartialRecord {
                                discipline_id: p.discipline_id,
                                path_id: Some(v),
                                area_id: p.area_id,
                                comp_id: p.comp_id,
                                rating: p.rating,
                            },
                            r,
                        ),
                    ),
                    None => None,
                }
            },
            None => match spec_expect(b0, lit_key_area()) {
                Some(b1) => if p.area_id is Some {
                    None
                } else {
                    match parse_colon_usize(b1) {
                        Some((v, r)) => Some(
                            (
                                PartialRecord {
                                    discipline_id: p.discipline_id,
                                    path_id: p.path_id,
                                    area_id: Some(v),
                                    comp_id: p.comp_id,
                                    rating: p.rating,
                                },
                                r,
                            ),
                        ),
                        None => None,
                    }
                },
                None => match spec_expect(b0, lit_key_comp()) {
                    Some(b1) => if p.comp_id is Some {
                        None
                    } else {
                        match parse_colon_usize(b1) {
                            Some((v, r)) => Some(
                                (
                                    PartialRecord {
                                        discipline_id: p.discipline_id,
                                        path_id: p.path_id,
                                        area_id: p.area_id,
                                        comp_id: Some(v),
                                        rating: p.rating,
                                    },
                                    r,
                                ),
                            ),
                            None => None,
                        }
                    },
                    None => match spec_expect(b0, lit_key_rating()) {
                        Some(b1) => if p.rating is Some {
                            None
                        } else {
                            match spec_expect(skip_ws(b1), seq![58u8]) {
                                Some(b2) => match parse_rating(b2) {
                                    Some((v, r)) => Some(
                                        (
                                            PartialRecord {
                                                discipline_id: p.discipline_id,
                                                path_id: p.path_id,
                                                area_id: p.area_id,
                                                comp_id: p.comp_id,
                                                rating: Some(v),
                                            },
                                            r,
                                        ),
                                    ),
                                    None => None,
                                },
                                None => None,
                            }
                        },
                        None => None,
                    },
                },
            },
        },
    }
}

/// Reads one or more comma-separated members; stops before the byte after
/// the last one (whitespace already dropped).
pub open spec fn parse_fields(b: Seq<u8>, p: PartialRecord) -> Option<(PartialRecord, Seq<u8>)>
    decreases b.len(),
{
    match parse_field(b, p) {
        None => None,
        Some((p2, rest)) => {
            let rest1 = skip_ws(rest);
            if rest1.len() > 0 && rest1[0] == 44 {
                let rest2 = rest1.drop_first();
                if rest2.len() < b.len() {
                    parse_fields(rest2, p2)
                } else {
                    None
                }
            } else {
                Some((p2, rest1))
            }
        },
    }
}

/// Reads one record object: all five fields, each exactly once, in any
/// order.
pub open spec fn parse_record(b: Seq<u8>) -> Option<(CompetencyRating, Seq<u8>)> {
    match spec_expect(skip_ws(b), seq![123u8]) {
        None => None,
        Some(b1) => match parse_fields(b1, spec_no_fields()) {
            None => None,
            Some((p, b2)) => match spec_expect(b2, seq![125u8]) {
                None => None,
                Some(b3) => match spec_complete(p) {
                    Some(cr) => Some((cr, b3)),
                    None => None,
                },
            },
        },
    }
}

/// Reads one or more comma-separated records; stops before the byte after
/// the last one (whitespace already dropped).
pub open spec fn parse_items(b: Seq<u8>) -> Option<(Seq<CompetencyRating>, Seq<u8>)>
    decreases b.len(),
{
    match parse_record(b) {
        None => None,
        Some((r, rest)) => {
            let rest1 = skip_ws(rest);
            if rest1.len() > 0 && rest1[0] == 44 {
                let rest2 = rest1.drop_first();
                if rest2.len() < b.len() {
                    match parse_items(rest2) {
                        None => None,
                        Some((s, rest3)) => Some((seq![r] + s, rest3)),
                    }
                } else {
                    None
                }
            } else {
                Some((seq![r], rest1))
            }
        },
    }
}

/// Reads a bracketed array of records.
pub open spec fn parse_ratings(b: Seq<u8>) -> Option<(Seq<CompetencyRating>, Seq<u8>)> {
    match spec_expect(skip_ws(b), seq![91u8]) {
        None => None,
        Some(b1) => {
            let b2 = skip_ws(b1);
            if b2.len() > 0 && b2[0] == 93 {
                Some((Seq::<CompetencyRating>::empty(), b2.drop_first()))
            } else {
                match parse_items(b2) {
                    None => None,
                    Some((s, b3)) => match spec_expect(b3, seq![93u8]) {
                        None => None,
                        Some(b4) => Some((s, b4)),
                    },
                }
            }
        },
    }
}

/// Decodes a whole body: the array, with nothing but whitespace around it.
pub open spec fn spec_decode(b: Seq<u8>) -> Option<Seq<CompetencyRating>> {
    match parse_ratings(b) {
        Some((s, rest)) => if skip_ws(rest).len() == 0 {
            Some(s)
        } else {
            None
        },
        None => None,
    }
}

// ---------------------------------------------------------------------
// Every accepted parse consumes at least one byte (for termination)
// ---------------------------------------------------------------------

proof fn lemma_parse_u64_rec_len(b: Seq<u8>, acc: u64)
    ensures
        parse_u64_rec(b, acc) matches Some(p) ==> p.1.len() <= b.len(),
    decreases b.len(),
{
    if b.len() > 0 && is_digit(b[0]) {
        let d = (b[0] - 48) as u64;
        if acc <= (u64::MAX - d) / 10 {
            lemma_parse_u64_rec_len(b.drop_first(), (acc * 10 + d) as u64);
        }
    }
}

proof fn lemma_parse_u64_len(b: Seq<u8>)
    ensures
        parse_u64(b) matches Some(p) ==> p.1.len() < b.len(),
{
    if b.len() > 0 && is_digit(b[0]) {
        let d = (b[0] - 48) as u64;
        assert((u64::MAX - d) / 10 >= 0) by {
            lemma_div_is_ordered(0, u64::MAX - d, 10);
        }
        if 0u64 <= (u64::MAX - d) / 10 {
            lemma_parse_u64_rec_len(b.drop_first(), (0 * 10 + d) as u64);
        }
    }
}

proof fn lemma_parse_usize_len(b: Seq<u8>)
    ensures
        parse_usize(b) matches Some(p) ==> p.1.len() < b.len(),
{
    lemma_parse_u64_len(b);
}

proof fn lemma_parse_i32_len(b: Seq<u8>)
    ensures
        parse_i32(b) matches Some(p) ==> p.1.len() < b.len(),
{
    if b.len() > 0 && b[0] == 45 {
        lemma_parse_u64_len(b.drop_first());
    } else {
        lemma_parse_u64_len(b);
    }
}

proof fn lemma_parse_colon_usize_len(b: Seq<u8>)
    ensures
        parse_colon_usize(b) matches Some(p) ==> p.1.len() < b.len(),
{
    lemma_skip_ws_len(b);
    let e = spec_expect(skip_ws(b), seq![58u8]);
    if e is Some {
        let b1 = e->Some_0;
        lemma_skip_ws_len(b1);
        lemma_parse_usize_len(skip_ws(b1));
    }
}

proof fn lemma_parse_colon_i32_len(b: Seq<u8>)
    ensures
        parse_colon_i32(b) matches Some(p) ==> p.1.len() < b.len(),
{
    lemma_skip_ws_len(b);
    let e = spec_expect(skip_ws(b), seq![58u8]);
    if e is Some {
        let b1 = e->Some_0;
        lemma_skip_ws_len(b1);
        lemma_parse_i32_len(skip_ws(b1));
    }
}

proof fn lemma_parse_rating_len(b: Seq<u8>)
    ensures
        parse_rating(b) matches Some(p) ==> p.1.len() < b.len(),
{
    lemma_skip_ws_len(b);
    let e = spec_expect(skip_ws(b), seq![123u8]);
    if e is Some {
        let b1 = e->Some_0;
        lemma_skip_ws_len(b1);
        let b2 = skip_ws(b1);
        let e1 = spec_expect(b2, lit_tag_interest());
        if e1 is Some {
            let b3 = e1->Some_0;
            lemma_parse_colon_i32_len(b3);
            let c = parse_colon_i32(b3);
            if c is Some {
                lemma_skip_ws_len(c->Some_0.1);
            }
        } else {
            let e2 = spec_expect(b2, lit_tag_competency());
            if e2 is Some {
                let b3 = e2->Some_0;
                lemma_parse_colon_i32_len(b3);
                let c = parse_colon_i32(b3);
                if c is Some {
                    lemma_skip_ws_len(c->Some_0.1);
                }
            }
        }
    }
}

proof fn lemma_parse_field_len(b: Seq<u8>, p: PartialRecord)
    ensures
        parse_field(b, p) matches Some(q) ==> q.1.len() < b.len(),
{
    lemma_skip_ws_len(b);
    let b0 = skip_ws(b);
    let e1 = spec_expect(b0, lit_key_discipline());
    if e1 is Some {
        lemma_parse_colon_usize_len(e1->Some_0);
    } else {
        let e2 = spec_expect(b0, lit_key_path());
        if e2 is Some {
            lemma_parse_colon_usize_len(e2->Some_0);
        } else {
            let e3 = spec_expect(b0, lit_key_area());
            if e3 is Some {
                lemma_parse_colon_usize_len(e3->Some_0);
            } else {
                let e4 = spec_expect(b0, lit_key_comp());
                if e4 is Some {
                    lemma_parse_colon_usize_len(e4->Some_0);
                } else {
                    let e5 = spec_expect(b0, lit_key_rating());
                    if e5 is Some {
                        let b1 = e5->Some_0;
                        lemma_skip_ws_len(b1);
                        let ec = spec_expect(skip_ws(b1), seq![58u8]);
                        if ec is Some {
                            lemma_parse_rating_len(ec->Some_0);
                        }
                    }
                }
            }
        }
    }
}

proof fn lemma_parse_fields_len(b: Seq<u8>, p: PartialRecord)
    ensures
        parse_fields(b, p) matches Some(q) ==> q.1.len() < b.len(),
    decreases b.len(),
{
    lemma_parse_field_len(b, p);
    let f = parse_field(b, p);
    if f is Some {
        let (p2, rest) = f->Some_0;
        lemma_skip_ws_len(rest);
        let rest1 = skip_ws(rest);
        if rest1.len() > 0 && rest1[0] == 44 {
            let rest2 = rest1.drop_first();
            if rest2.len() < b.len() {
                lemma_parse_fields_len(rest2, p2);
            }
        }
    }
}

proof fn lemma_parse_record_len(b: Seq<u8>)
    ensures
        parse_record(b) matches Some(p) ==> p.1.len() < b.len(),
{
    lemma_skip_ws_len(b);
    let e = spec_expect(skip_ws(b), seq![123u8]);
    if e is Some {
        let b1 = e->Some_0;
        lemma_parse_fields_len(b1, spec_no_fields());
    }
}

// ---------------------------------------------------------------------
// Executable parsing
// ---------------------------------------------------------------------

/// Drops leading whitespace, mirroring `skip_ws`.
fn skip_ws_exec<'a>(b: &'a [u8]) -> (r: &'a [u8])
    ensures
        r@ == skip_ws(b@),
    decreases b@.len(),
{
    if b.len() > 0 && (b[0] == 32 || b[0] == 9 || b[0] == 10 || b[0] == 13) {
        let rest = &b[1..b.len()];
        proof {
            assert(rest@ =~= b@.drop_first());
        }
        skip_ws_exec(rest)
    } else {
        b
    }
}

/// Consumes the bytes of `lit` from the front of `b`, or rejects.
fn expect_exec<'a>(b: &'a [u8], lit: &Vec<u8>) -> (r: Option<&'a [u8]>)
    ensures
        match r {
            Some(rest) => spec_expect(b@, lit@) == Some(rest@),
            None => spec_expect(b@, lit@) is None,
        },
{
    if lit.len() > b.len() {
        return None;
    }
    let mut i: usize = 0;
    while i < lit.len()
        invariant
            0 <= i <= lit@.len() <= b@.len(),
            forall|j: int| 0 <= j < i ==> b@[j] == lit@[j],
        decreases lit@.len() - i,
    {
        if b[i] != lit[i] {
            proof {
                if b@.subrange(0, lit@.len() as int) == lit@ {
                    assert(b@.subrange(0, lit@.len() as int)[i as int] == lit@[i as int]);
                    assert(b@[i as int] == lit@[i as int]);
                }
            }
            return None;
        }
        i = i + 1;
    }
    proof {
        assert(b@.subrange(0, lit@.len() as int) =~= lit@);
    }
    Some(&b[lit.len()..b.len()])
}

/// Consumes one fixed byte from the front of `b`, or rejects.
fn expect_byte<'a>(b: &'a [u8], c: u8) -> (r: Option<&'a [u8]>)
    ensures
        match r {
            Some(rest) => spec_expect(b@, seq![c]) == Some(rest@),
            None => spec_expect(b@, seq![c]) is None,
        },
{
    if b.len() > 0 && b[0] == c {
        proof {
            assert(b@.subrange(0, 1) =~= seq![c]);
        }
        Some(&b[1..b.len()])
    } else {
        proof {
            if 1 <= b@.len() && b@.subrange(0, 1) == seq![c] {
                assert(b@.subrange(0, 1)[0] == b@[0]);
            }
        }
        None
    }
}

/// Reads an unsigned decimal identifier, mirroring `parse_usize`.
pub fn parse_usize_exec<'a>(b: &'a [u8]) -> (r: Option<(usize, &'a [u8])>)
    ensures
        match r {
            Some(p) => parse_usize(b@) == Some((p.0, p.1@)),
            None => parse_usize(b@) is None,
        },
{
    match parse_u64_exec(b) {
        Some((v, rest)) => if v <= usize::MAX as u64 {
            Some((v as usize, rest))
        } else {
            None
        },
        None => None,
    }
}

/// Reads a signed decimal rating value, mirroring `parse_i32`.
pub fn parse_i32_exec<'a>(b: &'a [u8]) -> (r: Option<(i32, &'a [u8])>)
    ensures
        match r {
            Some(p) => parse_i32(b@) == Some((p.0, p.1@)),
            None => parse_i32(b@) is None,
        },
{
    if b.len() > 0 && b[0] == 45 {
        let rest0 = &b[1..b.len()];
        proof {
            assert(rest0@ =~= b@.drop_first());
        }
        match parse_u64_exec(rest0) {
            Some((v, rest)) => if 1 <= v && v <= 2147483648u64 {
                let m: i64 = -(v as i64);
                Some((m as i32, rest))
            } else {
                None
            },
            None => None,
        }
    } else {
        match parse_u64_exec(b) {
            Some((v, rest)) => if v <= 2147483647u64 {
                Some((v as i32, rest))
            } else {
                None
            },
            None => None,
        }
    }
}

/// Reads a colon and an identifier value, mirroring `parse_colon_usize`.
fn parse_colon_usize_exec<'a>(b: &'a [u8]) -> (r: Option<(usize, &'a [u8])>)
    ensures
        match r {
            Some(p) => parse_colon_usize(b@) == Some((p.0, p.1@)),
            None => parse_colon_usize(b@) is None,
        },
{
    match expect_byte(skip_ws_exec(b), 58) {
        Some(b1) => parse_usize_exec(skip_ws_exec(b1)),
        None => None,
    }
}

/// Reads a colon and a signed value, mirroring `parse_colon_i32`.
fn parse_colon_i32_exec<'a>(b: &'a [u8]) -> (r: Option<(i32, &'a [u8])>)
    ensures
        match r {
            Some(p) => parse_colon_i32(b@) == Some((p.0, p.1@)),
            None => parse_colon_i32(b@) is None,
        },
{
    match expect_byte(skip_ws_exec(b), 58) {
        Some(b1) => parse_i32_exec(skip_ws_exec(b1)),
        None => None,
    }
}

/// Reads one tagged rating object, mirroring `parse_rating`.
pub fn parse_rating_exec<'a>(b: &'a [u8]) -> (r: Option<(Rating, &'a [u8])>)
    ensures
        match r {
            Some(p) => parse_rating(b@) == Some((p.0, p.1@)),
            None => parse_rating(b@) is None,
        },
{
    let b1 = match expect_byte(skip_ws_exec(b), 123) {
        Some(x) => x,
        None => {
            return None;
        },
    };
    let b2 = skip_ws_exec(b1);
    let tag = tag_interest_bytes();
    match expect_exec(b2, &tag) {
        Some(b3) => match parse_colon_i32_exec(b3) {
            Some((v, b4)) => match expect_byte(skip_ws_exec(b4), 125) {
                Some(b5) => Some((Rating::Interest(v), b5)),
                None => None,
            },
            None => None,
        },
        None => {
            let tag = tag_competency_bytes();
            match expect_exec(b2, &tag) {
                Some(b3) => match parse_colon_i32_exec(b3) {
                    Some((v, b4)) => match expect_byte(skip_ws_exec(b4), 125) {
                        Some(b5) => Some((Rating::Competency(v), b5)),
                        None => None,
                    },
                    None => None,
                },
                None => None,
            }
        },
    }
}

/// Builds the record once every field has been read, mirroring
/// `spec_complete`.
fn complete_partial(p: &PartialRecord) -> (r: Option<CompetencyRating>)
    ensures
        r == spec_complete(*p),
{
    match (p.discipline_id, p.path_id, p.area_id, p.comp_id, p.rating) {
        (Some(d), Some(pa), Some(a), Some(c), Some(rt)) => Some(
            CompetencyRating {
                discipline_id: d,
                path_id: pa,
                area_id: a,
                comp_id: c,
                rating: rt,
            },
        ),
        _ => None,
    }
}

/// Reads one `"key": value` member, mirroring `parse_field`.
fn parse_field_exec<'a>(b: &'a [u8], p: PartialRecord) -> (r: Option<(PartialRecord, &'a [u8])>)
    ensures
        match r {
            Some(q) => parse_field(b@, p) == Some((q.0, q.1@)),
            None => parse_field(b@, p) is None,
        },
{
    let b0 = skip_ws_exec(b);
    let lit = key_discipline_bytes();
    if let Some(b1) = expect_exec(b0, &lit) {
        if p.discipline_id.is_some() {
            return None;
        }
        return match parse_colon_usize_exec(b1) {
            Some((v, r)) => Some((PartialRecord { discipline_id: Some(v), ..p }, r)),
            None => None,
        };
    }
    let lit = key_path_bytes();
    if let Some(b1) = expect_exec(b0, &lit) {
        if p.path_id.is_some() {
            return None;
        }
        return match parse_colon_usize_exec(b1) {
            Some((v, r)) => Some((PartialRecord { path_id: Some(v), ..p }, r)),
            None => None,
        };
    }
    let lit = key_area_bytes();
    if let Some(b1) = expect_exec(b0, &lit) {
        if p.area_id.is_some() {
            return None;
        }
        return match parse_colon_usize_exec(b1) {
            Some((v, r)) => Some((PartialRecord { area_id: Some(v), ..p }, r)),
            None => None,
        };
    }
    let lit = key_comp_bytes();
    if let Some(b1) = expect_exec(b0, &lit) {
        if p.comp_id.is_some() {
            return None;
        }
        return match parse_colon_usize_exec(b1) {
            Some((v, r)) => Some((PartialRecord { comp_id: Some(v), ..p }, r)),
            None => None,
        };
    }
    let lit = key_rating_bytes();
    if let Some(b1) = expect_exec(b0, &lit) {
        if p.rating.is_some() {
            return None;
        }
        return match expect_byte(skip_ws_exec(b1), 58) {
            Some(b2) => match parse_rating_exec(b2) {
                Some((v, r)) => Some((PartialRecord { rating: Some(v), ..p }, r)),
                None => None,
            },
            None => None,
        };
    }
    None
}

/// Reads the comma-separated members of one object, mirroring
/// `parse_fields`.
fn parse_fields_exec<'a>(b: &'a [u8], p: PartialRecord) -> (r: Option<(PartialRecord, &'a [u8])>)
    ensures
        match r {
            Some(q) => parse_fields(b@, p) == Some((q.0, q.1@)),
            None => parse_fields(b@, p) is None,
        },
    decreases b@.len(),
{
    match parse_field_exec(b, p) {
        None => None,
        Some((p2, rest)) => {
            let rest1 = skip_ws_exec(rest);
            if rest1.len() > 0 && rest1[0] == 44 {
                let rest2 = &rest1[1..rest1.len()];
                proof {
                    lemma_parse_field_len(b@, p);
                    lemma_skip_ws_len(rest@);
                    assert(rest2@ =~= rest1@.drop_first());
                }
                parse_fields_exec(rest2, p2)
            } else {
                Some((p2, rest1))
            }
        },
    }
}

/// Reads one record object, mirroring `parse_record`.
pub fn parse_record_exec<'a>(b: &'a [u8]) -> (r: Option<(CompetencyRating, &'a [u8])>)
    ensures
        match r {
            Some(p) => parse_record(b@) == Some((p.0, p.1@)),
            None => parse_record(b@) is None,
        },
{
    let b1 = match expect_byte(skip_ws_exec(b), 123) {
        Some(x) => x,
        None => {
            return None;
        },
    };
    let no_fields = PartialRecord {
        discipline_id: None,
        path_id: None,
        area_id: None,
        comp_id: None,
        rating: None,
    };
    let (p, b2) = match parse_fields_exec(b1, no_fields) {
        Some(q) => q,
        None => {
            return None;
        },
    };
    let b3 = match expect_byte(b2, 125) {
        Some(x) => x,
        None => {
            return None;
        },
    };
    match complete_partial(&p) {
        Some(cr) => Some((cr, b3)),
        None => None,
    }
}

/// Reads one or more comma-separated records, mirroring `parse_items`.
fn parse_items_exec<'a>(b: &'a [u8]) -> (r: Option<(Vec<CompetencyRating>, &'a [u8])>)
    ensures
        match r {
            Some(p) => parse_items(b@) == Some((p.0@, p.1@)),
            None => parse_items(b@) is None,
        },
    decreases b@.len(),
{
    match parse_record_exec(b) {
        None => None,
        Some((rec, rest)) => {
            let rest1 = skip_ws_exec(rest);
            if rest1.len() > 0 && rest1[0] == 44 {
                let rest2 = &rest1[1..rest1.len()];
                proof {
                    lemma_parse_record_len(b@);
                    lemma_skip_ws_len(rest@);
                    assert(rest2@ =~= rest1@.drop_first());
                }
                match parse_items_exec(rest2) {
                    None => None,
                    Some((s, rest3)) => {
                        let mut s = s;
                        let ghost s0 = s@;
                        s.insert(0, rec);
                        proof {
                            assert(s@ =~= seq![rec] + s0);
                        }
                        Some((s, rest3))
                    },
                }
            } else {
                let mut one: Vec<CompetencyRating> = Vec::new();
                one.push(rec);
                proof {
                    assert(one@ =~= seq![rec]);
                }
                Some((one, rest1))
            }
        },
    }
}

/// Decodes a whole body, mirroring `spec_decode`: the bracketed array with
/// nothing but whitespace around it, or nothing on any malformed input.
pub fn decode_ratings(b: &[u8]) -> (r: Option<Vec<CompetencyRating>>)
    ensures
        match r {
            Some(v) => spec_decode(b@) == Some(v@),
            None => spec_decode(b@) is None,
        },
{
    let b1 = match expect_byte(skip_ws_exec(b), 91) {
        Some(x) => x,
        None => {
            return None;
        },
    };
    let b2 = skip_ws_exec(b1);
    if b2.len() > 0 && b2[0] == 93 {
        let rest = &b2[1..b2.len()];
        proof {
            assert(rest@ =~= b2@.drop_first());
        }
        if skip_ws_exec(rest).len() == 0 {
            return Some(Vec::new());
        }
        return None;
    }
    let (v, b3) = match parse_items_exec(b2) {
        Some(p) => p,
        None => {
            return None;
        },
    };
    let b4 = match expect_byte(b3, 93) {
        Some(x) => x,
        None => {
            return None;
        },
    };
    if skip_ws_exec(b4).len() == 0 {
        Some(v)
    } else {
        None
    }
}

// ---------------------------------------------------------------------
// The round trip: decoding an encoding gives back the same sequence
// ---------------------------------------------------------------------

proof fn lemma_expect_rt(lit: Seq<u8>, rest: Seq<u8>)
    ensures
        spec_expect(lit + rest, lit) == Some(rest),
{
    let b = lit + rest;
    assert(b.subrange(0, lit.len() as int) =~= lit);
    assert(b.subrange(lit.len() as int, b.len() as int) =~= rest);
}

proof fn lemma_expect_mismatch(b: Seq<u8>, lit: Seq<u8>, i: int)
    requires
        0 <= i < lit.len(),
        i < b.len(),
        b[i] != lit[i],
    ensures
        spec_expect(b, lit) is None,
{
    if lit.len() <= b.len() && b.subrange(0, lit.len() as int) == lit {
        assert(b.subrange(0, lit.len() as int)[i] == b[i]);
    }
}

proof fn lemma_parse_usize_rt(n: usize, rest: Seq<u8>)
    requires
        rest.len() == 0 || !is_digit(rest[0]),
    ensures
        parse_usize(enc_nat(n as nat) + rest) == Some((n, rest)),
{
    lemma_parse_u64_rt(n as u64, rest);
}

proof fn lemma_parse_i32_rt(v: i32, rest: Seq<u8>)
    requires
        rest.len() == 0 || !is_digit(rest[0]),
    ensures
        parse_i32(enc_int(v as int) + rest) == Some((v, rest)),
{
    if v < 0 {
        let m = (-(v as int)) as nat;
        let b = enc_int(v as int) + rest;
        assert(b =~= seq![45u8] + (enc_nat(m) + rest));
        assert(b[0] == 45);
        assert(b.drop_first() =~= enc_nat(m) + rest);
        lemma_parse_u64_rt(m as u64, rest);
        assert(1 <= m as u64 && m as u64 <= 2147483648u64);
        assert((-(m as u64 as int)) as i32 == v);
    } else {
        let b = enc_nat(v as nat) + rest;
        lemma_enc_nat_shape(v as nat);
        assert(b[0] == enc_nat(v as nat)[0]);
        assert(is_digit(b[0]));
        assert(b[0] != 45);
        lemma_parse_u64_rt(v as u64, rest);
        assert(v as u64 <= 2147483647u64);
        assert(v as u64 as i32 == v);
    }
}

proof fn lemma_parse_colon_usize_rt(n: usize, rest: Seq<u8>)
    requires
        rest.len() == 0 || !is_digit(rest[0]),
    ensures
        parse_colon_usize(seq![58u8] + (enc_nat(n as nat) + rest)) == Some((n, rest)),
{
    let b = seq![58u8] + (enc_nat(n as nat) + rest);
    assert(b[0] == 58 && !is_ws(b[0]));
    assert(skip_ws(b) == b);
    lemma_expect_rt(seq![58u8], enc_nat(n as nat) + rest);
    let u = enc_nat(n as nat) + rest;
    lemma_enc_nat_shape(n as nat);
    assert(u[0] == enc_nat(n as nat)[0]);
    assert(is_digit(u[0]) && !is_ws(u[0]));
    assert(skip_ws(u) == u);
    lemma_parse_usize_rt(n, rest);
}

proof fn lemma_parse_colon_i32_rt(v: i32, rest: Seq<u8>)
    requires
        rest.len() == 0 || !is_digit(rest[0]),
    ensures
        parse_colon_i32(seq![58u8] + (enc_int(v as int) + rest)) == Some((v, rest)),
{
    let b = seq![58u8] + (enc_int(v as int) + rest);
    assert(b[0] == 58 && !is_ws(b[0]));
    assert(skip_ws(b) == b);
    lemma_expect_rt(seq![58u8], enc_int(v as int) + rest);
    let u = enc_int(v as int) + rest;
    if v < 0 {
        assert(enc_int(v as int) =~= seq![45u8] + enc_nat((-(v as int)) as nat));
        assert(u[0] == 45);
    } else {
        lemma_enc_nat_shape(v as nat);
        assert(u[0] == enc_nat(v as nat)[0]);
        assert(is_digit(u[0]));
    }
    assert(!is_ws(u[0]));
    assert(skip_ws(u) == u);
    lemma_parse_i32_rt(v, rest);
}

proof fn lemma_parse_rating_rt(r: Rating, rest: Seq<u8>)
    ensures
        parse_rating(enc_rating(r) + rest) == Some((r, rest)),
{
    let b = enc_rating(r) + rest;
    match r {
        Rating::Interest(v) => {
            let t1 = lit_tag_interest() + (seq![58u8] + (enc_int(v as int) + (seq![125u8]
                + rest)));
            assert(b =~= seq![123u8] + t1);
            assert(b[0] == 123 && !is_ws(b[0]));
            assert(skip_ws(b) == b);
            lemma_expect_rt(seq![123u8], t1);
            assert(t1[0] == 34 && !is_ws(t1[0]));
            assert(skip_ws(t1) == t1);
            lemma_expect_rt(
                lit_tag_interest(),
                seq![58u8] + (enc_int(v as int) + (seq![125u8] + rest)),
            );
            assert((seq![125u8] + rest)[0] == 125);
            lemma_parse_colon_i32_rt(v, seq![125u8] + rest);
            assert(!is_ws(125u8));
            assert(skip_ws(seq![125u8] + rest) == seq![125u8] + rest);
            lemma_expect_rt(seq![125u8], rest);
        },
        Rating::Competency(v) => {
            let t1 = lit_tag_competency() + (seq![58u8] + (enc_int(v as int) + (seq![125u8]
                + rest)));
            assert(b =~= seq![123u8] + t1);
            assert(b[0] == 123 && !is_ws(b[0]));
            assert(skip_ws(b) == b);
            lemma_expect_rt(seq![123u8], t1);
            assert(t1[0] == 34 && !is_ws(t1[0]));
            assert(skip_ws(t1) == t1);
            // the interest tag does not match: the bytes after the quote differ
            assert(t1[1] == lit_tag_competency()[1]);
            assert(lit_tag_competency()[1] == 67);
            assert(lit_tag_interest()[1] == 73);
            lemma_expect_mismatch(t1, lit_tag_interest(), 1);
            lemma_expect_rt(
                lit_tag_competency(),
                seq![58u8] + (enc_int(v as int) + (seq![125u8] + rest)),
            );
            assert((seq![125u8] + rest)[0] == 125);
            lemma_parse_colon_i32_rt(v, seq![125u8] + rest);
            assert(!is_ws(125u8));
            assert(skip_ws(seq![125u8] + rest) == seq![125u8] + rest);
            lemma_expect_rt(seq![125u8], rest);
        },
    }
}

/// `p` with the discipline identifier read.
spec fn set_discipline(p: PartialRecord, v: usize) -> PartialRecord {
    PartialRecord {
        discipline_id: Some(v),
        path_id: p.path_id,
        area_id: p.area_id,
        comp_id: p.comp_id,
        rating: p.rating,
    }
}

/// `p` with the path identifier read.
spec fn set_path(p: PartialRecord, v: usize) -> PartialRecord {
    PartialRecord {
        discipline_id: p.discipline_id,
        path_id: Some(v),
        area_id: p.area_id,
        comp_id: p.comp_id,
        rating: p.rating,
    }
}

/// `p` with the area identifier read.
spec fn set_area(p: PartialRecord, v: usize) -> PartialRecord {
    PartialRecord {
        discipline_id: p.discipline_id,
        path_id: p.path_id,
        area_id: Some(v),
        comp_id: p.comp_id,
        rating: p.rating,
    }
}

/// `p` with the competency identifier read.
spec fn set_comp(p: PartialRecord, v: usize) -> PartialRecord {
    PartialRecord {
        discipline_id: p.discipline_id,
        path_id: p.path_id,
        area_id: p.area_id,
        comp_id: Some(v),
        rating: p.rating,
    }
}

/// `p` with the rating read.
spec fn set_rating(p: PartialRecord, v: Rating) -> PartialRecord {
    PartialRecord {
        discipline_id: p.discipline_id,
        path_id: p.path_id,
        area_id: p.area_id,
        comp_id: p.comp_id,
        rating: Some(v),
    }
}

proof fn lemma_field_discipline_rt(n: usize, p: PartialRecord, rest: Seq<u8>)
    requires
        p.discipline_id is None,
        rest.len() > 0,
        !is_ws(rest[0]),
        !is_digit(rest[0]),
    ensures
        parse_field(lit_key_discipline() + (seq![58u8] + (enc_nat(n as nat) + rest)), p) == Some(
            (set_discipline(p, n), rest),
        ),
{
    let b = lit_key_discipline() + (seq![58u8] + (enc_nat(n as nat) + rest));
    assert(b[0] == 34 && !is_ws(b[0]));
    assert(skip_ws(b) == b);
    lemma_expect_rt(lit_key_discipline(), seq![58u8] + (enc_nat(n as nat) + rest));
    lemma_parse_colon_usize_rt(n, rest);
}

proof fn lemma_field_path_rt(n: usize, p: PartialRecord, rest: Seq<u8>)
    requires
        p.path_id is None,
        rest.len() > 0,
        !is_ws(rest[0]),
        !is_digit(rest[0]),
    ensures
        parse_field(lit_key_path() + (seq![58u8] + (enc_nat(n as nat) + rest)), p) == Some(
            (set_path(p, n), rest),
        ),
{
    let b = lit_key_path() + (seq![58u8] + (enc_nat(n as nat) + rest));
    assert(b[0] == 34 && !is_ws(b[0]));
    assert(skip_ws(b) == b);
    assert(b[1] == lit_key_path()[1] && lit_key_path()[1] == 112);
    assert(lit_key_discipline()[1] == 100);
    lemma_expect_mismatch(b, lit_key_discipline(), 1);
    lemma_expect_rt(lit_key_path(), seq![58u8] + (enc_nat(n as nat) + rest));
    lemma_parse_colon_usize_rt(n, rest);
}

proof fn lemma_field_area_rt(n: usize, p: PartialRecord, rest: Seq<u8>)
    requires
        p.area_id is None,
        rest.len() > 0,
        !is_ws(rest[0]),
        !is_digit(rest[0]),
    ensures
        parse_field(lit_key_area() + (seq![58u8] + (enc_nat(n as nat) + rest)), p) == Some(
            (set_area(p, n), rest),
        ),
{
    let b = lit_key_area() + (seq![58u8] + (enc_nat(n as nat) + rest));
    assert(b[0] == 34 && !is_ws(b[0]));
    assert(skip_ws(b) == b);
    assert(b[1] == lit_key_area()[1] && lit_key_area()[1] == 97);
    assert(lit_key_discipline()[1] == 100);
    assert(lit_key_path()[1] == 112);
    lemma_expect_mismatch(b, lit_key_discipline(), 1);
    lemma_expect_mismatch(b, lit_key_path(), 1);
    lemma_expect_rt(lit_key_area(), seq![58u8] + (enc_nat(n as nat) + rest));
    lemma_parse_colon_usize_rt(n, rest);
}

proof fn lemma_field_comp_rt(n: usize, p: PartialRecord, rest: Seq<u8>)
    requires
        p.comp_id is None,
        rest.len() > 0,
        !is_ws(rest[0]),
        !is_digit(rest[0]),
    ensures
        parse_field(lit_key_comp() + (seq![58u8] + (enc_nat(n as nat) + rest)), p) == Some(
            (set_comp(p, n), rest),
        ),
{
    let b = lit_key_comp() + (seq![58u8] + (enc_nat(n as nat) + rest));
    assert(b[0] == 34 && !is_ws(b[0]));
    assert(skip_ws(b) == b);
    assert(b[1] == lit_key_comp()[1] && lit_key_comp()[1] == 99);
    assert(lit_key_discipline()[1] == 100);
    assert(lit_key_path()[1] == 112);
    assert(lit_key_area()[1] == 97);
    lemma_expect_mismatch(b, lit_key_discipline(), 1);
    lemma_expect_mismatch(b, lit_key_path(), 1);
    lemma_expect_mismatch(b, lit_key_area(), 1);
    lemma_expect_rt(lit_key_comp(), seq![58u8] + (enc_nat(n as nat) + rest));
    lemma_parse_colon_usize_rt(n, rest);
}

proof fn lemma_field_rating_rt(r: Rating, p: PartialRecord, rest: Seq<u8>)
    requires
        p.rating is None,
    ensures
        parse_field(lit_key_rating() + (seq![58u8] + (enc_rating(r) + rest)), p) == Some(
            (set_rating(p, r), rest),
        ),
{
    let b = lit_key_rating() + (seq![58u8] + (enc_rating(r) + rest));
    assert(b[0] == 34 && !is_ws(b[0]));
    assert(skip_ws(b) == b);
    assert(b[1] == lit_key_rating()[1] && lit_key_rating()[1] == 114);
    assert(lit_key_discipline()[1] == 100);
    assert(lit_key_path()[1] == 112);
    assert(lit_key_area()[1] == 97);
    assert(lit_key_comp()[1] == 99);
    lemma_expect_mismatch(b, lit_key_discipline(), 1);
    lemma_expect_mismatch(b, lit_key_path(), 1);
    lemma_expect_mismatch(b, lit_key_area(), 1);
    lemma_expect_mismatch(b, lit_key_comp(), 1);
    lemma_expect_rt(lit_key_rating(), seq![58u8] + (enc_rating(r) + rest));
    let t = seq![58u8] + (enc_rating(r) + rest);
    assert(t[0] == 58 && !is_ws(t[0]));
    assert(skip_ws(t) == t);
    lemma_expect_rt(seq![58u8], enc_rating(r) + rest);
    lemma_parse_rating_rt(r, rest);
}

#[verifier::rlimit(100)]
proof fn lemma_parse_record_rt(cr: CompetencyRating, rest: Seq<u8>)
    ensures
        parse_record(enc_record(cr) + rest) == Some((cr, rest)),
{
    let n1 = enc_nat(cr.discipline_id as nat);
    let n2 = enc_nat(cr.path_id as nat);
    let n3 = enc_nat(cr.area_id as nat);
    let n4 = enc_nat(cr.comp_id as nat);
    let er = enc_rating(cr.rating);
    let t_end = seq![125u8] + rest;
    let u5 = lit_key_rating() + (seq![58u8] + (er + t_end));
    let u4 = lit_key_comp() + (seq![58u8] + (n4 + (seq![44u8] + u5)));
    let u3 = lit_key_area() + (seq![58u8] + (n3 + (seq![44u8] + u4)));
    let u2 = lit_key_path() + (seq![58u8] + (n2 + (seq![44u8] + u3)));
    let u1 = lit_key_discipline() + (seq![58u8] + (n1 + (seq![44u8] + u2)));
    let b = enc_record(cr) + rest;
    assert(b =~= seq![123u8] + u1);
    assert(b[0] == 123 && !is_ws(b[0]));
    assert(skip_ws(b) == b);
    lemma_expect_rt(seq![123u8], u1);

    let p0 = spec_no_fields();
    let p1 = set_discipline(p0, cr.discipline_id);
    let p2 = set_path(p1, cr.path_id);
    let p3 = set_area(p2, cr.area_id);
    let p4 = set_comp(p3, cr.comp_id);
    let p5 = set_rating(p4, cr.rating);

    // the five members, read in the order the canonical form writes them
    assert((seq![44u8] + u2)[0] == 44 && !is_ws(44u8) && !is_digit(44u8));
    lemma_field_discipline_rt(cr.discipline_id, p0, seq![44u8] + u2);
    assert((seq![44u8] + u3)[0] == 44);
    lemma_field_path_rt(cr.path_id, p1, seq![44u8] + u3);
    assert((seq![44u8] + u4)[0] == 44);
    lemma_field_area_rt(cr.area_id, p2, seq![44u8] + u4);
    assert((seq![44u8] + u5)[0] == 44);
    lemma_field_comp_rt(cr.comp_id, p3, seq![44u8] + u5);
    lemma_field_rating_rt(cr.rating, p4, t_end);

    // walk the member list from its tail to its head
    assert(t_end[0] == 125 && !is_ws(t_end[0]));
    assert(skip_ws(t_end) == t_end);
    assert(parse_fields(u5, p4) == Some((p5, t_end)));
    assert(skip_ws(seq![44u8] + u5) == seq![44u8] + u5);
    assert((seq![44u8] + u5).drop_first() =~= u5);
    assert(u4.len() > u5.len());
    assert(parse_fields(u4, p3) == Some((p5, t_end)));
    assert(skip_ws(seq![44u8] + u4) == seq![44u8] + u4);
    assert((seq![44u8] + u4).drop_first() =~= u4);
    assert(u3.len() > u4.len());
    assert(parse_fields(u3, p2) == Some((p5, t_end)));
    assert(skip_ws(seq![44u8] + u3) == seq![44u8] + u3);
    assert((seq![44u8] + u3).drop_first() =~= u3);
    assert(u2.len() > u3.len());
    assert(parse_fields(u2, p1) == Some((p5, t_end)));
    assert(skip_ws(seq![44u8] + u2) == seq![44u8] + u2);
    assert((seq![44u8] + u2).drop_first() =~= u2);
    assert(u1.len() > u2.len());
    assert(parse_fields(u1, p0) == Some((p5, t_end)));

    lemma_expect_rt(seq![125u8], rest);
    assert(spec_complete(p5) == Some(cr));
}

#[verifier::rlimit(60)]
proof fn lemma_parse_items_rt(s: Seq<CompetencyRating>, rest: Seq<u8>)
    requires
        s.len() >= 1,
        rest.len() > 0,
        !is_ws(rest[0]),
        rest[0] != 44,
    ensures
        parse_items(enc_items(s) + rest) == Some((s, rest)),
    decreases s.len(),
{
    if s.len() == 1 {
        assert(enc_items(s) == enc_record(s[0]));
        lemma_parse_record_rt(s[0], rest);
        assert(skip_ws(rest) == rest);
        assert(seq![s[0]] =~= s);
    } else {
        let tail = enc_items(s.drop_first());
        let r1 = seq![44u8] + (tail + rest);
        assert(enc_items(s) + rest =~= enc_record(s[0]) + r1);
        lemma_parse_record_rt(s[0], r1);
        assert(r1[0] == 44 && !is_ws(r1[0]));
        assert(skip_ws(r1) == r1);
        assert(r1.drop_first() =~= tail + rest);
        assert(enc_record(s[0]).len() >= 15);
        lemma_parse_items_rt(s.drop_first(), rest);
        assert(seq![s[0]] + s.drop_first() =~= s);
    }
}

/// The round trip: decoding the canonical wire form of any rating sequence
/// yields exactly that sequence again, tags and values preserved.
#[verifier::rlimit(60)]
pub proof fn lemma_round_trip(s: Seq<CompetencyRating>)
    ensures
        spec_decode(enc_ratings(s)) == Some(s),
{
    let b = enc_ratings(s);
    assert(b[0] == 91 && !is_ws(b[0]));
    assert(skip_ws(b) == b);
    if s.len() == 0 {
        assert(enc_items(s) == Seq::<u8>::empty());
        assert(b =~= seq![91u8] + seq![93u8]);
        lemma_expect_rt(seq![91u8], seq![93u8]);
        assert(seq![93u8][0] == 93 && !is_ws(93u8));
        assert(skip_ws(seq![93u8]) == seq![93u8]);
        assert(seq![93u8].drop_first() =~= Seq::<u8>::empty());
        assert(skip_ws(Seq::<u8>::empty()).len() == 0);
    } else {
        let t = enc_items(s) + seq![93u8];
        assert(b =~= seq![91u8] + t);
        lemma_expect_rt(seq![91u8], t);
        assert(enc_items(s)[0] == enc_record(s[0])[0]) by {
            if s.len() > 1 {
                assert(enc_items(s) == enc_record(s[0]) + seq![44u8] + enc_items(s.drop_first()));
                assert(enc_record(s[0]).len() >= 15);
            }
        }
        assert(enc_record(s[0])[0] == 123);
        assert(enc_items(s).len() >= 15);
        assert(t[0] == enc_items(s)[0]);
        assert(t[0] == 123 && t[0] != 93 && !is_ws(t[0]));
        assert(skip_ws(t) == t);
        assert(seq![93u8][0] == 93 && !is_ws(93u8) && 93u8 != 44u8);
        lemma_parse_items_rt(s, seq![93u8]);
        lemma_expect_rt(seq![93u8], Seq::<u8>::empty());
        assert(seq![93u8] + Seq::<u8>::empty() =~= seq![93u8]);
        assert(skip_ws(Seq::<u8>::empty()).len() == 0);
    }
}

} // verus!

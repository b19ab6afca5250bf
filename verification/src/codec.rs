//! The credential file format: a small structured-text schema holding the
//! consumer pair and, optionally, the stored access token.
//!
//! The grammar is fixed:
//!
//! ```text
//! [twitter]
//! key = "<consumer key>"
//! secret = "<consumer secret>"
//! [twitter.token]
//! consumer = { key = "<k>", secret = "<s>" }
//! access = { key = "<k>", secret = "<s>" }
//! ```
//!
//! The token table is present exactly when a token is stored. String values
//! are quoted; a quote, backslash, line feed or carriage return inside a value
//! is written as a backslash escape, so every byte value round-trips.

use vstd::prelude::*;
use vstd::seq_lib::lemma_concat_associative;
use crate::creds::{Credentials, CredentialsView, KeyPair, KeyPairView, Token, TokenView};
use crate::error::ConfigError;

verus! {

/// The quote byte.
pub const QUOTE: u8 = 34;

/// The backslash byte.
pub const BSLASH: u8 = 92;

/// The line feed byte.
pub const LINEFEED: u8 = 10;

/// The carriage return byte.
pub const CARRIAGE: u8 = 13;

/// How one byte of a string value is written inside quotes.
pub open spec fn esc_byte(b: u8) -> Seq<u8> {
    if b == QUOTE {
        seq![BSLASH, QUOTE]
    } else if b == BSLASH {
        seq![BSLASH, BSLASH]
    } else if b == LINEFEED {
        seq![BSLASH, 110u8]
    } else if b == CARRIAGE {
        seq![BSLASH, 114u8]
    } else {
        seq![b]
    }
}

/// How a whole string value is written inside quotes.
pub open spec fn esc(s: Seq<u8>) -> Seq<u8>
    decreases s.len(),
{
    if s.len() == 0 {
        Seq::empty()
    } else {
        esc_byte(s[0]) + esc(s.skip(1))
    }
}

/// The bytes that may follow a backslash.
pub open spec fn is_code(b: u8) -> bool {
    b == 110 || b == 114 || b == BSLASH || b == QUOTE
}

/// The byte a backslash escape stands for.
pub open spec fn decode_byte(b: u8) -> u8 {
    if b == 110 {
        LINEFEED
    } else if b == 114 {
        CARRIAGE
    } else {
        b
    }
}

/// Reads a quoted string value up to and including its closing quote: the
/// decoded value and the remainder of the input. A stray backslash, a raw
/// line break or a missing closing quote is a parse failure.
pub open spec fn parse_qstr(s: Seq<u8>) -> Option<(Seq<u8>, Seq<u8>)>
    decreases s.len(),
{
    if s.len() == 0 {
        None
    } else if s[0] == QUOTE {
        Some((Seq::empty(), s.skip(1)))
    } else if s[0] == BSLASH {
        if s.len() >= 2 && is_code(s[1]) {
            match parse_qstr(s.skip(2)) {
                Some(p) => Some((seq![decode_byte(s[1])] + p.0, p.1)),
                None => None,
            }
        } else {
            None
        }
    } else if s[0] == LINEFEED || s[0] == CARRIAGE {
        None
    } else {
        match parse_qstr(s.skip(1)) {
            Some(p) => Some((seq![s[0]] + p.0, p.1)),
            None => None,
        }
    }
}

/// Reads an exact literal off the front of the input.
pub open spec fn expect(s: Seq<u8>, lit: Seq<u8>) -> Option<Seq<u8>> {
    if lit.len() <= s.len() && s.take(lit.len() as int) == lit {
        Some(s.skip(lit.len() as int))
    } else {
        None
    }
}

/// `[twitter]` and a line feed.
pub open spec fn lit_header() -> Seq<u8> {
    seq![91u8, 116u8, 119u8, 105u8, 116u8, 116u8, 101u8, 114u8, 93u8, 10u8]
}

/// `key = ` and an opening quote.
pub open spec fn lit_key() -> Seq<u8> {
    seq![107u8, 101u8, 121u8, 32u8, 61u8, 32u8, 34u8]
}

/// A line feed.
pub open spec fn lit_nl() -> Seq<u8> {
    seq![10u8]
}

/// `secret = ` and an opening quote.
pub open spec fn lit_secret() -> Seq<u8> {
    seq![115u8, 101u8, 99u8, 114u8, 101u8, 116u8, 32u8, 61u8, 32u8, 34u8]
}

/// `[twitter.token]` and a line feed.
pub open spec fn lit_tok_header() -> Seq<u8> {
    seq![
        91u8,
        116u8,
        119u8,
        105u8,
        116u8,
        116u8,
        101u8,
        114u8,
        46u8,
        116u8,
        111u8,
        107u8,
        101u8,
        110u8,
        93u8,
        10u8,
    ]
}

/// `consumer = { key = ` and an opening quote.
pub open spec fn lit_consumer() -> Seq<u8> {
    seq![
        99u8,
        111u8,
        110u8,
        115u8,
        117u8,
        109u8,
        101u8,
        114u8,
        32u8,
        61u8,
        32u8,
        123u8,
        32u8,
        107u8,
        101u8,
        121u8,
        32u8,
        61u8,
        32u8,
        34u8,
    ]
}

/// `, secret = ` and an opening quote.
pub open spec fn lit_mid() -> Seq<u8> {
    seq![44u8, 32u8, 115u8, 101u8, 99u8, 114u8, 101u8, 116u8, 32u8, 61u8, 32u8, 34u8]
}

/// The closing ` }` and a line feed.
pub open spec fn lit_close() -> Seq<u8> {
    seq![32u8, 125u8, 10u8]
}

/// `access = { key = ` and an opening quote.
pub open spec fn lit_access() -> Seq<u8> {
    seq![
        97u8,
        99u8,
        99u8,
        101u8,
        115u8,
        115u8,
        32u8,
        61u8,
        32u8,
        123u8,
        32u8,
        107u8,
        101u8,
        121u8,
        32u8,
        61u8,
        32u8,
        34u8,
    ]
}

/// The serialized token table, or nothing where no token is stored.
pub open spec fn ser_tok_part(token: Option<TokenView>) -> Seq<u8> {
    match token {
        None => Seq::empty(),
        Some(t) => lit_tok_header() + (lit_consumer() + (esc(t.consumer.key) + (seq![QUOTE] + (
        lit_mid() + (esc(t.consumer.secret) + (seq![QUOTE] + (lit_close() + (lit_access() + (esc(
            t.access.key,
        ) + (seq![QUOTE] + (lit_mid() + (esc(t.access.secret) + (seq![QUOTE]
            + lit_close()))))))))))))),
    }
}

/// The whole serialized credential file.
pub open spec fn ser_spec(c: CredentialsView) -> Seq<u8> {
    lit_header() + (lit_key() + (esc(c.consumer.key) + (seq![QUOTE] + (lit_nl() + (lit_secret() + (
    esc(c.consumer.secret) + (seq![QUOTE] + (lit_nl() + ser_tok_part(c.token)))))))))
}

/// Parses the token table; everything after it must be gone.
pub open spec fn parse_tok_part(s: Seq<u8>) -> Option<TokenView> {
    match expect(s, lit_tok_header()) {
        None => None,
        Some(s1) => match expect(s1, lit_consumer()) {
            None => None,
            Some(s2) => match parse_qstr(s2) {
                None => None,
                Some((ck, s3)) => match expect(s3, lit_mid()) {
                    None => None,
                    Some(s4) => match parse_qstr(s4) {
                        None => None,
                        Some((cs, s5)) => match expect(s5, lit_close()) {
                            None => None,
                            Some(s6) => match expect(s6, lit_access()) {
                                None => None,
                                Some(s7) => match parse_qstr(s7) {
                                    None => None,
                                    Some((ak, s8)) => match expect(s8, lit_mid()) {
                                        None => None,
                                        Some(s9) => match parse_qstr(s9) {
                                            None => None,
                                            Some((asec, s10)) => match expect(s10, lit_close()) {
                                                None => None,
                                                Some(s11) => if s11.len() == 0 {
                                                    Some(
                                                        TokenView {
                                                            consumer: KeyPairView {
                                                                key: ck,
                                                                secret: cs,
                                                            },
                                                            access: KeyPairView {
                                                                key: ak,
                                                                secret: asec,
                                                            },
                                                        },
                                                    )
                                                } else {
                                                    None
                                                },
                                            },
                                        },
                                    },
                                },
                            },
                        },
                    },
                },
            },
        },
    }
}

/// Parses a whole credential file. `None` is a malformed file.
pub open spec fn parse_spec(s: Seq<u8>) -> Option<CredentialsView> {
    match expect(s, lit_header()) {
        None => None,
        Some(s1) => match expect(s1, lit_key()) {
            None => None,
            Some(s2) => match parse_qstr(s2) {
                None => None,
                Some((key, s3)) => match expect(s3, lit_nl()) {
                    None => None,
                    Some(s4) => match expect(s4, lit_secret()) {
                        None => None,
                        Some(s5) => match parse_qstr(s5) {
                            None => None,
                            Some((secret, s6)) => match expect(s6, lit_nl()) {
                                None => None,
                                Some(s7) => if s7.len() == 0 {
                                    Some(
                                        CredentialsView {
                                            consumer: KeyPairView { key, secret },
                                            token: None,
                                        },
                                    )
                                } else {
                                    match parse_tok_part(s7) {
                                        None => None,
                                        Some(t) => Some(
                                            CredentialsView {
                                                consumer: KeyPairView { key, secret },
                                                token: Some(t),
                                            },
                                        ),
                                    }
                                },
                            },
                        },
                    },
                },
            },
        },
    }
}

/// A literal at the front of the input is read off whole.
proof fn lemma_expect_prefix(lit: Seq<u8>, rest: Seq<u8>)
    ensures
        expect(lit + rest, lit) == Some(rest),
{
    assert((lit + rest).take(lit.len() as int) =~= lit);
    assert((lit + rest).skip(lit.len() as int) =~= rest);
}

/// An escaped value followed by its closing quote parses back to the value,
/// leaving the rest of the input untouched.
proof fn lemma_parse_qstr_esc(s: Seq<u8>, rest: Seq<u8>)
    ensures
        parse_qstr(esc(s) + (seq![QUOTE] + rest)) == Some((s, rest)),
    decreases s.len(),
{
    let whole = esc(s) + (seq![QUOTE] + rest);
    if s.len() == 0 {
        assert(esc(s) == Seq::<u8>::empty());
        assert(whole =~= seq![QUOTE] + rest);
        assert(whole[0] == QUOTE);
        assert(whole.skip(1) =~= rest);
        assert(s =~= Seq::<u8>::empty());
    } else {
        let b = s[0];
        let tail = esc(s.skip(1)) + (seq![QUOTE] + rest);
        lemma_parse_qstr_esc(s.skip(1), rest);
        assert(esc(s) == esc_byte(b) + esc(s.skip(1)));
        if b == QUOTE || b == BSLASH || b == LINEFEED || b == CARRIAGE {
            let c = esc_byte(b)[1];
            assert(esc_byte(b).len() == 2);
            assert(whole.len() >= 2);
            assert(whole[0] == BSLASH);
            assert(whole[1] == c);
            assert(is_code(c));
            assert(decode_byte(c) == b);
            assert(whole.skip(2) =~= tail);
            assert(seq![b] + s.skip(1) =~= s);
        } else {
            assert(esc_byte(b).len() == 1);
            assert(whole[0] == b);
            assert(whole[0] != QUOTE && whole[0] != BSLASH && whole[0] != LINEFEED && whole[0]
                != CARRIAGE);
            assert(whole.skip(1) =~= tail);
            assert(seq![b] + s.skip(1) =~= s);
        }
    }
}

/// Splitting an escaped value at any point splits its escape text.
proof fn lemma_esc_append(a: Seq<u8>, b: Seq<u8>)
    ensures
        esc(a + b) == esc(a) + esc(b),
    decreases a.len(),
{
    if a.len() == 0 {
        assert(a + b =~= b);
        assert(esc(a) + esc(b) =~= esc(b));
    } else {
        lemma_esc_append(a.skip(1), b);
        assert((a + b).skip(1) =~= a.skip(1) + b);
        assert((a + b)[0] == a[0]);
        assert(esc(a + b) == esc_byte(a[0]) + (esc(a.skip(1)) + esc(b)));
        assert(esc_byte(a[0]) + (esc(a.skip(1)) + esc(b)) =~= (esc_byte(a[0]) + esc(a.skip(1)))
            + esc(b));
    }
}

/// Law: parsing a serialized credential file yields exactly the credentials it
/// was written from, for every field value, with and without a stored token.
pub proof fn lemma_credentials_roundtrip(c: CredentialsView)
    ensures
        parse_spec(ser_spec(c)) == Some(c),
{
    let k = c.consumer.key;
    let sec = c.consumer.secret;
    let tok = ser_tok_part(c.token);
    let r7 = tok;
    let r6 = lit_nl() + r7;
    let r5 = esc(sec) + (seq![QUOTE] + r6);
    let r4 = lit_secret() + r5;
    let r3 = lit_nl() + r4;
    let r2 = esc(k) + (seq![QUOTE] + r3);
    let r1 = lit_key() + r2;
    assert(ser_spec(c) == lit_header() + r1);
    lemma_expect_prefix(lit_header(), r1);
    lemma_expect_prefix(lit_key(), r2);
    lemma_parse_qstr_esc(k, r3);
    lemma_expect_prefix(lit_nl(), r4);
    lemma_expect_prefix(lit_secret(), r5);
    lemma_parse_qstr_esc(sec, r6);
    lemma_expect_prefix(lit_nl(), r7);
    match c.token {
        None => {
            assert(r7.len() == 0);
            assert(parse_spec(ser_spec(c)) == Some(c));
        },
        Some(t) => {
            let t11 = Seq::<u8>::empty();
            let t10 = lit_close();
            let t9 = esc(t.access.secret) + (seq![QUOTE] + t10);
            let t8 = lit_mid() + t9;
            let t7 = esc(t.access.key) + (seq![QUOTE] + t8);
            let t6 = lit_access() + t7;
            let t5 = lit_close() + t6;
            let t4 = esc(t.consumer.secret) + (seq![QUOTE] + t5);
            let t3 = lit_mid() + t4;
            let t2 = esc(t.consumer.key) + (seq![QUOTE] + t3);
            let t1 = lit_consumer() + t2;
            assert(r7 == lit_tok_header() + t1);
            assert(r7.len() > 0);
            lemma_expect_prefix(lit_tok_header(), t1);
            lemma_expect_prefix(lit_consumer(), t2);
            lemma_parse_qstr_esc(t.consumer.key, t3);
            lemma_expect_prefix(lit_mid(), t4);
            lemma_parse_qstr_esc(t.consumer.secret, t5);
            lemma_expect_prefix(lit_close(), t6);
            lemma_expect_prefix(lit_access(), t7);
            lemma_parse_qstr_esc(t.access.key, t8);
            lemma_expect_prefix(lit_mid(), t9);
            lemma_parse_qstr_esc(t.access.secret, t10);
            assert(t10 =~= lit_close() + t11);
            lemma_expect_prefix(lit_close(), t11);
            assert(parse_tok_part(r7) == Some(t));
            assert(parse_spec(ser_spec(c)) == Some(c));
        },
    }
}

/// Builds the `lit_header` literal.
fn lit_header_vec() -> (r: Vec<u8>)
    ensures
        r@ == lit_header(),
{
    let mut v: Vec<u8> = Vec::new();
    v.push(91);
    v.push(116);
    v.push(119);
    v.push(105);
    v.push(116);
    v.push(116);
    v.push(101);
    v.push(114);
    v.push(93);
    v.push(10);
    proof {
        assert(v@ =~= lit_header());
    }
    v
}

/// Builds the `lit_key` literal.
fn lit_key_vec() -> (r: Vec<u8>)
    ensures
        r@ == lit_key(),
{
    let mut v: Vec<u8> = Vec::new();
    v.push(107);
    v.push(101);
    v.push(121);
    v.push(32);
    v.push(61);
    v.push(32);
    v.push(34);
    proof {
        assert(v@ =~= lit_key());
    }
    v
}

/// Builds the `lit_nl` literal.
fn lit_nl_vec() -> (r: Vec<u8>)
    ensures
        r@ == lit_nl(),
{
    let mut v: Vec<u8> = Vec::new();
    v.push(10);
    proof {
        assert(v@ =~= lit_nl());
    }
    v
}

/// Builds the `lit_secret` literal.
fn lit_secret_vec() -> (r: Vec<u8>)
    ensures
        r@ == lit_secret(),
{
    let mut v: Vec<u8> = Vec::new();
    v.push(115);
    v.push(101);
    v.push(99);
    v.push(114);
    v.push(101);
    v.push(116);
    v.push(32);
    v.push(61);
    v.push(32);
    v.push(34);
    proof {
        assert(v@ =~= lit_secret());
    }
    v
}

/// Builds the `lit_tok_header` literal.
fn lit_tok_header_vec() -> (r: Vec<u8>)
    ensures
        r@ == lit_tok_header(),
{
    let mut v: Vec<u8> = Vec::new();
    v.push(91);
    v.push(116);
    v.push(119);
    v.push(105);
    v.push(116);
    v.push(116);
    v.push(101);
    v.push(114);
    v.push(46);
    v.push(116);
    v.push(111);
    v.push(107);
    v.push(101);
    v.push(110);
    v.push(93);
    v.push(10);
    proof {
        assert(v@ =~= lit_tok_header());
    }
    v
}

/// Builds the `lit_consumer` literal.
fn lit_consumer_vec() -> (r: Vec<u8>)
    ensures
        r@ == lit_consumer(),
{
    let mut v: Vec<u8> = Vec::new();
    v.push(99);
    v.push(111);
    v.push(110);
    v.push(115);
    v.push(117);
    v.push(109);
    v.push(101);
    v.push(114);
    v.push(32);
    v.push(61);
    v.push(32);
    v.push(123);
    v.push(32);
    v.push(107);
    v.push(101);
    v.push(121);
    v.push(32);
    v.push(61);
    v.push(32);
    v.push(34);
    proof {
        assert(v@ =~= lit_consumer());
    }
    v
}

/// Builds the `lit_mid` literal.
fn lit_mid_vec() -> (r: Vec<u8>)
    ensures
        r@ == lit_mid(),
{
    let mut v: Vec<u8> = Vec::new();
    v.push(44);
    v.push(32);
    v.push(115);
    v.push(101);
    v.push(99);
    v.push(114);
    v.push(101);
    v.push(116);
    v.push(32);
    v.push(61);
    v.push(32);
    v.push(34);
    proof {
        assert(v@ =~= lit_mid());
    }
    v
}

/// Builds the `lit_close` literal.
fn lit_close_vec() -> (r: Vec<u8>)
    ensures
        r@ == lit_close(),
{
    let mut v: Vec<u8> = Vec::new();
    v.push(32);
    v.push(125);
    v.push(10);
    proof {
        assert(v@ =~= lit_close());
    }
    v
}

/// Builds the `lit_access` literal.
fn lit_access_vec() -> (r: Vec<u8>)
    ensures
        r@ == lit_access(),
{
    let mut v: Vec<u8> = Vec::new();
    v.push(97);
    v.push(99);
    v.push(99);
    v.push(101);
    v.push(115);
    v.push(115);
    v.push(32);
    v.push(61);
    v.push(32);
    v.push(123);
    v.push(32);
    v.push(107);
    v.push(101);
    v.push(121);
    v.push(32);
    v.push(61);
    v.push(32);
    v.push(34);
    proof {
        assert(v@ =~= lit_access());
    }
    v
}

/// Reads the literal `lit` at position `pos`.
fn expect_bytes(input: &Vec<u8>, pos: usize, lit: &Vec<u8>) -> (r: Option<usize>)
    requires
        pos <= input.len(),
    ensures
        match r {
            Some(p2) => {
                &&& pos <= p2 <= input@.len()
                &&& p2 == pos + lit@.len()
                &&& expect(input@.skip(pos as int), lit@) == Some(input@.skip(p2 as int))
            },
            None => expect(input@.skip(pos as int), lit@) is None,
        },
{
    if input.len() - pos < lit.len() {
        proof {
            assert(input@.skip(pos as int).len() < lit@.len());
        }
        return None;
    }
    let end: usize = pos + lit.len();
    let mut j: usize = 0;
    while j < lit.len()
        invariant
            j <= lit@.len(),
            end == pos + lit@.len(),
            end <= input@.len(),
            forall|m: int| 0 <= m < j ==> input@[pos + m] == lit@[m],
        decreases lit@.len() - j,
    {
        if input[pos + j] != lit[j] {
            proof {
                let s = input@.skip(pos as int);
                assert(s.take(lit@.len() as int)[j as int] == input@[pos + j]);
                assert(s.take(lit@.len() as int) != lit@) by {
                    if s.take(lit@.len() as int) == lit@ {
                        assert(s.take(lit@.len() as int)[j as int] == lit@[j as int]);
                    }
                }
            }
            return None;
        }
        j = j + 1;
    }
    proof {
        let s = input@.skip(pos as int);
        assert(s.take(lit@.len() as int) =~= lit@);
        assert(s.skip(lit@.len() as int) =~= input@.skip(pos as int + lit@.len() as int));
    }
    Some(pos + lit.len())
}

/// Reads a quoted string value at position `pos`, decoding escapes, up to and
/// including its closing quote.
fn parse_quoted(input: &Vec<u8>, pos: usize) -> (r: Option<(Vec<u8>, usize)>)
    requires
        pos <= input.len(),
    ensures
        match r {
            Some(p) => {
                &&& pos <= p.1 <= input@.len()
                &&& parse_qstr(input@.skip(pos as int)) == Some((p.0@, input@.skip(p.1 as int)))
            },
            None => parse_qstr(input@.skip(pos as int)) is None,
        },
{
    let mut out: Vec<u8> = Vec::new();
    let mut i: usize = pos;
    proof {
        assert(out@ =~= Seq::<u8>::empty());
        match parse_qstr(input@.skip(pos as int)) {
            Some(p) => {
                assert(out@ + p.0 =~= p.0);
            },
            None => {},
        }
    }
    while i < input.len()
        invariant
            pos <= i <= input@.len(),
            match parse_qstr(input@.skip(i as int)) {
                Some(p) => parse_qstr(input@.skip(pos as int)) == Some((out@ + p.0, p.1)),
                None => parse_qstr(input@.skip(pos as int)) is None,
            },
        decreases input@.len() - i,
    {
        let b = input[i];
        proof {
            assert(input@.skip(i as int)[0] == b);
            assert(input@.skip(i as int).len() == input@.len() - i);
        }
        if b == 34 {
            proof {
                assert(input@.skip(i as int).skip(1) =~= input@.skip(i as int + 1));
                assert(out@ + Seq::<u8>::empty() =~= out@);
            }
            return Some((out, i + 1));
        } else if b == 92 {
            if i + 1 == input.len() {
                proof {
                    assert(input@.skip(i as int).len() == 1);
                }
                return None;
            }
            let c = input[i + 1];
            proof {
                assert(input@.skip(i as int)[1] == c);
            }
            if c == 110 || c == 114 || c == 92 || c == 34 {
                let d: u8 = if c == 110 {
                    10
                } else if c == 114 {
                    13
                } else {
                    c
                };
                let ghost out0 = out@;
                out.push(d);
                proof {
                    assert(d == decode_byte(c));
                    let si = input@.skip(i as int);
                    assert(si.skip(2) =~= input@.skip(i as int + 2));
                    assert(out@ =~= out0.push(d));
                    match parse_qstr(input@.skip(i as int + 2)) {
                        Some(p) => {
                            assert(parse_qstr(si) == Some((seq![d] + p.0, p.1)));
                            assert(out@ + p.0 =~= out0 + (seq![d] + p.0));
                        },
                        None => {
                            assert(parse_qstr(si) is None);
                        },
                    }
                }
                i = i + 2;
            } else {
                proof {
                    assert(!is_code(c));
                }
                return None;
            }
        } else if b == 10 || b == 13 {
            return None;
        } else {
            let ghost out0 = out@;
            out.push(b);
            proof {
                let si = input@.skip(i as int);
                assert(si.skip(1) =~= input@.skip(i as int + 1));
                match parse_qstr(input@.skip(i as int + 1)) {
                    Some(p) => {
                        assert(parse_qstr(si) == Some((seq![b] + p.0, p.1)));
                        assert(out@ + p.0 =~= out0 + (seq![b] + p.0));
                    },
                    None => {},
                }
            }
            i = i + 1;
        }
    }
    proof {
        assert(input@.skip(i as int).len() == 0);
    }
    None
}

/// Appends the escaped form of `s` to `out`.
fn push_escaped(out: &mut Vec<u8>, s: &Vec<u8>)
    ensures
        final(out)@ == old(out)@ + esc(s@),
{
    let mut i: usize = 0;
    proof {
        assert(s@.take(0) =~= Seq::<u8>::empty());
        assert(out@ + esc(s@.take(0)) =~= out@);
    }
    while i < s.len()
        invariant
            i <= s@.len(),
            out@ == old(out)@ + esc(s@.take(i as int)),
        decreases s@.len() - i,
    {
        let b = s[i];
        proof {
            assert(s@.take(i as int + 1) =~= s@.take(i as int) + seq![b]);
            lemma_esc_append(s@.take(i as int), seq![b]);
            assert(seq![b].skip(1) =~= Seq::<u8>::empty());
            assert(esc(Seq::<u8>::empty()) == Seq::<u8>::empty());
            assert(esc(seq![b]) == esc_byte(b) + Seq::<u8>::empty());
            assert(esc_byte(b) + Seq::<u8>::empty() =~= esc_byte(b));
        }
        if b == 34 {
            out.push(92);
            out.push(34);
        } else if b == 92 {
            out.push(92);
            out.push(92);
        } else if b == 10 {
            out.push(92);
            out.push(110);
        } else if b == 13 {
            out.push(92);
            out.push(114);
        } else {
            out.push(b);
        }
        proof {
            assert(out@ =~= old(out)@ + esc(s@.take(i as int + 1)));
        }
        i = i + 1;
    }
    proof {
        assert(s@.take(s@.len() as int) =~= s@);
    }
}

/// Writes credentials in the credential file format. Parsing the result gives
/// the credentials back.
pub fn serialize_credentials(c: &Credentials) -> (r: Vec<u8>)
    ensures
        r@ == ser_spec(c@),
        parse_spec(r@) == Some(c@),
{
    let mut out: Vec<u8> = Vec::new();
    let mut l = lit_header_vec();
    out.append(&mut l);
    let ghost o1 = out@;
    let mut l = lit_key_vec();
    out.append(&mut l);
    let ghost o2 = out@;
    push_escaped(&mut out, &c.consumer.key);
    let ghost o3 = out@;
    out.push(34);
    let ghost o4 = out@;
    out.push(10);
    let ghost o5 = out@;
    let mut l = lit_secret_vec();
    out.append(&mut l);
    let ghost o6 = out@;
    push_escaped(&mut out, &c.consumer.secret);
    let ghost o7 = out@;
    out.push(34);
    let ghost o8 = out@;
    out.push(10);
    let ghost o9 = out@;
    proof {
        let q = seq![QUOTE];
        let tok = ser_tok_part(c@.token);
        let g9 = lit_nl() + tok;
        let g8 = q + g9;
        let g7 = esc(c@.consumer.secret) + g8;
        let g6 = lit_secret() + g7;
        let g5 = lit_nl() + g6;
        let g4 = q + g5;
        let g3 = esc(c@.consumer.key) + g4;
        let g2 = lit_key() + g3;
        assert(ser_spec(c@) == lit_header() + g2);
        assert(o1 =~= lit_header());
        assert(o4 =~= o3 + q);
        assert(o5 =~= o4 + lit_nl());
        assert(o8 =~= o7 + q);
        assert(o9 =~= o8 + lit_nl());
        lemma_concat_associative(o1, lit_key(), g3);
        assert(ser_spec(c@) == o2 + g3);
        lemma_concat_associative(o2, esc(c@.consumer.key), g4);
        assert(ser_spec(c@) == o3 + g4);
        lemma_concat_associative(o3, q, g5);
        assert(ser_spec(c@) == o4 + g5);
        lemma_concat_associative(o4, lit_nl(), g6);
        assert(ser_spec(c@) == o5 + g6);
        lemma_concat_associative(o5, lit_secret(), g7);
        assert(ser_spec(c@) == o6 + g7);
        lemma_concat_associative(o6, esc(c@.consumer.secret), g8);
        assert(ser_spec(c@) == o7 + g8);
        lemma_concat_associative(o7, q, g9);
        assert(ser_spec(c@) == o8 + g9);
        lemma_concat_associative(o8, lit_nl(), tok);
        assert(ser_spec(c@) == o9 + tok);
    }
    match &c.token {
        None => {
            proof {
                assert(ser_tok_part(c@.token) == Seq::<u8>::empty());
                assert(o9 + Seq::<u8>::empty() =~= o9);
            }
        },
        Some(t) => {
            let mut l = lit_tok_header_vec();
            out.append(&mut l);
            let ghost o10 = out@;
            let mut l = lit_consumer_vec();
            out.append(&mut l);
            let ghost o11 = out@;
            push_escaped(&mut out, &t.consumer.key);
            let ghost o12 = out@;
            out.push(34);
            let ghost o13 = out@;
            let mut l = lit_mid_vec();
            out.append(&mut l);
            let ghost o14 = out@;
            push_escaped(&mut out, &t.consumer.secret);
            let ghost o15 = out@;
            out.push(34);
            let ghost o16 = out@;
            let mut l = lit_close_vec();
            out.append(&mut l);
            let ghost o17 = out@;
            let mut l = lit_access_vec();
            out.append(&mut l);
            let ghost o18 = out@;
            push_escaped(&mut out, &t.access.key);
            let ghost o19 = out@;
            out.push(34);
            let ghost o20 = out@;
            let mut l = lit_mid_vec();
            out.append(&mut l);
            let ghost o21 = out@;
            push_escaped(&mut out, &t.access.secret);
            let ghost o22 = out@;
            out.push(34);
            let ghost o23 = out@;
            let mut l = lit_close_vec();
            out.append(&mut l);
            proof {
                let q = seq![QUOTE];
                let u14 = q + lit_close();
                let u13 = esc(t@.access.secret) + u14;
                let u12 = lit_mid() + u13;
                let u11 = q + u12;
                let u10 = esc(t@.access.key) + u11;
                let u9 = lit_access() + u10;
                let u8 = lit_close() + u9;
                let u7 = q + u8;
                let u6 = esc(t@.consumer.secret) + u7;
                let u5 = lit_mid() + u6;
                let u4 = q + u5;
                let u3 = esc(t@.consumer.key) + u4;
                let u2 = lit_consumer() + u3;
                let u1 = lit_tok_header() + u2;
                assert(ser_tok_part(c@.token) == u1);
                assert(o13 =~= o12 + q);
                assert(o16 =~= o15 + q);
                assert(o20 =~= o19 + q);
                assert(o23 =~= o22 + q);
                lemma_concat_associative(o9, lit_tok_header(), u2);
                assert(ser_spec(c@) == o10 + u2);
                lemma_concat_associative(o10, lit_consumer(), u3);
                assert(ser_spec(c@) == o11 + u3);
                lemma_concat_associative(o11, esc(t@.consumer.key), u4);
                assert(ser_spec(c@) == o12 + u4);
                lemma_concat_associative(o12, q, u5);
                assert(ser_spec(c@) == o13 + u5);
                lemma_concat_associative(o13, lit_mid(), u6);
                assert(ser_spec(c@) == o14 + u6);
                lemma_concat_associative(o14, esc(t@.consumer.secret), u7);
                assert(ser_spec(c@) == o15 + u7);
                lemma_concat_associative(o15, q, u8);
                assert(ser_spec(c@) == o16 + u8);
                lemma_concat_associative(o16, lit_close(), u9);
                assert(ser_spec(c@) == o17 + u9);
                lemma_concat_associative(o17, lit_access(), u10);
                assert(ser_spec(c@) == o18 + u10);
                lemma_concat_associative(o18, esc(t@.access.key), u11);
                assert(ser_spec(c@) == o19 + u11);
                lemma_concat_associative(o19, q, u12);
                assert(ser_spec(c@) == o20 + u12);
                lemma_concat_associative(o20, lit_mid(), u13);
                assert(ser_spec(c@) == o21 + u13);
                lemma_concat_associative(o21, esc(t@.access.secret), u14);
                assert(ser_spec(c@) == o22 + u14);
                lemma_concat_associative(o22, q, lit_close());
                assert(ser_spec(c@) == o23 + lit_close());
            }
        },
    }
    proof {
        lemma_credentials_roundtrip(c@);
    }
    out
}

/// Parses a credential file. Exactly the files the grammar admits are
/// accepted; any other input is malformed.
pub fn parse_credentials(input: &Vec<u8>) -> (r: Result<Credentials, ConfigError>)
    ensures
        match parse_spec(input@) {
            Some(cv) => r matches Ok(c) && c@ == cv,
            None => r == Err::<Credentials, ConfigError>(ConfigError::Malformed),
        },
{
    proof {
        assert(input@.skip(0) =~= input@);
    }
    let l_nl = lit_nl_vec();
    let l_mid = lit_mid_vec();
    let l_close = lit_close_vec();
    let l_header = lit_header_vec();
    let p1 = match expect_bytes(input, 0, &l_header) {
        Some(p) => p,
        None => {
            return Err(ConfigError::Malformed);
        },
    };
    let l_key = lit_key_vec();
    let p2 = match expect_bytes(input, p1, &l_key) {
        Some(p) => p,
        None => {
            return Err(ConfigError::Malformed);
        },
    };
    let (key, p3) = match parse_quoted(input, p2) {
        Some(q) => q,
        None => {
            return Err(ConfigError::Malformed);
        },
    };
    let p4 = match expect_bytes(input, p3, &l_nl) {
        Some(p) => p,
        None => {
            return Err(ConfigError::Malformed);
        },
    };
    let l_secret = lit_secret_vec();
    let p5 = match expect_bytes(input, p4, &l_secret) {
        Some(p) => p,
        None => {
            return Err(ConfigError::Malformed);
        },
    };
    let (secret, p6) = match parse_quoted(input, p5) {
        Some(q) => q,
        None => {
            return Err(ConfigError::Malformed);
        },
    };
    let p7 = match expect_bytes(input, p6, &l_nl) {
        Some(p) => p,
        None => {
            return Err(ConfigError::Malformed);
        },
    };
    if p7 == input.len() {
        proof {
            assert(input@.skip(p7 as int).len() == 0);
        }
        return Ok(Credentials { consumer: KeyPair { key, secret }, token: None });
    }
    let l_tok_header = lit_tok_header_vec();
    let p8 = match expect_bytes(input, p7, &l_tok_header) {
        Some(p) => p,
        None => {
            return Err(ConfigError::Malformed);
        },
    };
    let l_consumer = lit_consumer_vec();
    let p9 = match expect_bytes(input, p8, &l_consumer) {
        Some(p) => p,
        None => {
            return Err(ConfigError::Malformed);
        },
    };
    let (ck, p10) = match parse_quoted(input, p9) {
        Some(q) => q,
        None => {
            return Err(ConfigError::Malformed);
        },
    };
    let p11 = match expect_bytes(input, p10, &l_mid) {
        Some(p) => p,
        None => {
            return Err(ConfigError::Malformed);
        },
    };
    let (cs, p12) = match parse_quoted(input, p11) {
        Some(q) => q,
        None => {
            return Err(ConfigError::Malformed);
        },
    };
    let p13 = match expect_bytes(input, p12, &l_close) {
        Some(p) => p,
        None => {
            return Err(ConfigError::Malformed);
        },
    };
    let l_access = lit_access_vec();
    let p14 = match expect_bytes(input, p13, &l_access) {
        Some(p) => p,
        None => {
            return Err(ConfigError::Malformed);
        },
    };
    let (ak, p15) = match parse_quoted(input, p14) {
        Some(q) => q,
        None => {
            return Err(ConfigError::Malformed);
        },
    };
    let p16 = match expect_bytes(input, p15, &l_mid) {
        Some(p) => p,
        None => {
            return Err(ConfigError::Malformed);
        },
    };
    let (asec, p17) = match parse_quoted(input, p16) {
        Some(q) => q,
        None => {
            return Err(ConfigError::Malformed);
        },
    };
    let p18 = match expect_bytes(input, p17, &l_close) {
        Some(p) => p,
        None => {
            return Err(ConfigError::Malformed);
        },
    };
    if p18 != input.len() {
        return Err(ConfigError::Malformed);
    }
    proof {
        assert(input@.skip(p18 as int).len() == 0);
    }
    Ok(
        Credentials {
            consumer: KeyPair { key, secret },
            token: Some(
                Token {
                    consumer: KeyPair { key: ck, secret: cs },
                    access: KeyPair { key: ak, secret: asec },
                },
            ),
        },
    )
}

} // verus!

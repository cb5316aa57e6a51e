//! Bounded record codec: converts a gift or recipient record to and from a
//! byte sequence of at most [`MAX_ENCODED_SIZE`] bytes.
//!
//! The wire format is fixed per schema: the numeric fields in declaration
//! order as little-endian 64-bit words, an optional timestamp as a one-byte
//! tag followed by its word when present, then each string field as a
//! two-byte character count followed by one little-endian 32-bit scalar
//! value per character.  Decoding is the exact inverse of encoding, and an
//! encoding determines its bytes completely, so a stored blob that decodes
//! is known to be the decoded record's own encoding.
//!
//! The format is fixed per schema.  Changing it, or a record's fields,
//! without a migration pass over every stored record makes persisted data
//! unreadable: a region written under any other record format is rejected
//! as fatal when a table is opened over it.

use vstd::bytes::*;
use vstd::prelude::*;
use vstd::slice::slice_subrange;
use vstd::string::StrSliceExecFns;
use vstd::utf8::char_is_scalar;
use vstd::utf8::char_u32_cast;
use vstd::utf8::is_scalar;

use crate::records::{Error, Gift, GiftView, Recipient, RecipientView};

verus! {

/// Largest number of bytes the codec may produce for one record.
pub const MAX_ENCODED_SIZE: usize = 1024;

/// Relies on char::from_u32: a char comes back exactly for Unicode scalar
/// values (not a surrogate, at most 0x10FFFF), and casts back to the same
/// number.
pub assume_specification[ char::from_u32 ](u: u32) -> (r: Option<char>)
    ensures
        r is Some <==> is_scalar(u),
        r matches Some(c) ==> c as u32 == u,
;

/// Relies on String::push: appends the given char to the end of the string.
pub assume_specification[ String::push ](s: &mut String, c: char)
    ensures
        final(s)@ == old(s)@.push(c),
;

// ---------------------------------------------------------------------------
// Specification-level encoders
// ---------------------------------------------------------------------------

pub open spec fn enc_u64(x: u64) -> Seq<u8> {
    spec_u64_to_le_bytes(x)
}

pub open spec fn enc_opt_u64(x: Option<u64>) -> Seq<u8> {
    match x {
        None => seq![0u8],
        Some(v) => seq![1u8] + spec_u64_to_le_bytes(v),
    }
}

pub open spec fn enc_chars(s: Seq<char>) -> Seq<u8>
    decreases s.len(),
{
    if s.len() == 0 {
        Seq::empty()
    } else {
        spec_u32_to_le_bytes(s[0] as u32) + enc_chars(s.drop_first())
    }
}

pub open spec fn enc_str(s: Seq<char>) -> Seq<u8> {
    spec_u16_to_le_bytes(s.len() as u16) + enc_chars(s)
}

pub open spec fn enc_gift(g: GiftView) -> Seq<u8> {
    enc_u64(g.id) + enc_u64(g.recipient_id) + enc_u64(g.created_at) + enc_opt_u64(g.updated_at)
        + enc_str(g.name) + enc_str(g.description) + enc_str(g.status)
}

pub open spec fn enc_recipient(r: RecipientView) -> Seq<u8> {
    enc_u64(r.id) + enc_u64(r.created_at) + enc_opt_u64(r.updated_at) + enc_str(r.name)
        + enc_str(r.relationship)
}

// ---------------------------------------------------------------------------
// Encoded sizes and the schema size convention
// ---------------------------------------------------------------------------

pub open spec fn opt_u64_len(x: Option<u64>) -> int {
    match x {
        None => 1,
        Some(_) => 9,
    }
}

pub open spec fn str_len(s: Seq<char>) -> int {
    2 + 4 * (s.len() as int)
}

pub open spec fn gift_encoded_len(g: GiftView) -> int {
    24 + opt_u64_len(g.updated_at) + str_len(g.name) + str_len(g.description) + str_len(g.status)
}

pub open spec fn recipient_encoded_len(r: RecipientView) -> int {
    16 + opt_u64_len(r.updated_at) + str_len(r.name) + str_len(r.relationship)
}

/// The size convention of the gift schema: the record's encoding stays
/// within the declared maximum.
pub open spec fn gift_fits(g: GiftView) -> bool {
    gift_encoded_len(g) <= MAX_ENCODED_SIZE
}

/// The size convention of the recipient schema.
pub open spec fn recipient_fits(r: RecipientView) -> bool {
    recipient_encoded_len(r) <= MAX_ENCODED_SIZE
}

/// The size convention on caller-supplied gift fields: whatever the
/// timestamps, a gift built from such a payload fits the bound (the fixed
/// part costs at most 24 + 9 + 6 bytes).
pub open spec fn gift_payload_fits(p: crate::records::GiftPayloadView) -> bool {
    39 + 4 * (p.name.len() + p.description.len() + p.status.len()) <= MAX_ENCODED_SIZE
}

/// The size convention on caller-supplied recipient fields.
pub open spec fn recipient_payload_fits(p: crate::records::RecipientPayloadView) -> bool {
    29 + 4 * (p.name.len() + p.relationship.len()) <= MAX_ENCODED_SIZE
}

pub proof fn lemma_enc_chars_len(s: Seq<char>)
    ensures
        enc_chars(s).len() == 4 * s.len(),
    decreases s.len(),
{
    lemma_auto_spec_u32_to_from_le_bytes();
    if s.len() > 0 {
        lemma_enc_chars_len(s.drop_first());
    }
}

pub proof fn lemma_enc_gift_len(g: GiftView)
    ensures
        enc_gift(g).len() == gift_encoded_len(g),
{
    lemma_auto_spec_u64_to_from_le_bytes();
    lemma_auto_spec_u16_to_from_le_bytes();
    lemma_enc_chars_len(g.name);
    lemma_enc_chars_len(g.description);
    lemma_enc_chars_len(g.status);
}

pub proof fn lemma_enc_recipient_len(r: RecipientView)
    ensures
        enc_recipient(r).len() == recipient_encoded_len(r),
{
    lemma_auto_spec_u64_to_from_le_bytes();
    lemma_auto_spec_u16_to_from_le_bytes();
    lemma_enc_chars_len(r.name);
    lemma_enc_chars_len(r.relationship);
}

// ---------------------------------------------------------------------------
// Specification-level parsers, each consuming a prefix of the bytes
// ---------------------------------------------------------------------------

pub open spec fn parse_u64(b: Seq<u8>) -> Option<(u64, Seq<u8>)> {
    if b.len() >= 8 {
        Some((spec_u64_from_le_bytes(b.take(8)), b.skip(8)))
    } else {
        None
    }
}

pub open spec fn parse_u16(b: Seq<u8>) -> Option<(u16, Seq<u8>)> {
    if b.len() >= 2 {
        Some((spec_u16_from_le_bytes(b.take(2)), b.skip(2)))
    } else {
        None
    }
}

pub open spec fn parse_u32(b: Seq<u8>) -> Option<(u32, Seq<u8>)> {
    if b.len() >= 4 {
        Some((spec_u32_from_le_bytes(b.take(4)), b.skip(4)))
    } else {
        None
    }
}

pub open spec fn parse_opt_u64(b: Seq<u8>) -> Option<(Option<u64>, Seq<u8>)> {
    if b.len() >= 1 {
        if b[0] == 0u8 {
            Some((None, b.skip(1)))
        } else if b[0] == 1u8 {
            match parse_u64(b.skip(1)) {
                Some((v, rest)) => Some((Some(v), rest)),
                None => None,
            }
        } else {
            None
        }
    } else {
        None
    }
}

pub open spec fn parse_chars(b: Seq<u8>, n: nat) -> Option<(Seq<char>, Seq<u8>)>
    decreases n,
{
    if n == 0 {
        Some((Seq::empty(), b))
    } else {
        match parse_u32(b) {
            Some((u, rest)) => if is_scalar(u) {
                match parse_chars(rest, (n - 1) as nat) {
                    Some((s, rest2)) => Some((seq![u as char] + s, rest2)),
                    None => None,
                }
            } else {
                None
            },
            None => None,
        }
    }
}

pub open spec fn parse_str(b: Seq<u8>) -> Option<(Seq<char>, Seq<u8>)> {
    match parse_u16(b) {
        Some((n, rest)) => parse_chars(rest, n as nat),
        None => None,
    }
}

pub open spec fn dec_gift(b: Seq<u8>) -> Option<GiftView> {
    match parse_u64(b) {
        Some((id, b1)) => match parse_u64(b1) {
            Some((recipient_id, b2)) => match parse_u64(b2) {
                Some((created_at, b3)) => match parse_opt_u64(b3) {
                    Some((updated_at, b4)) => match parse_str(b4) {
                        Some((name, b5)) => match parse_str(b5) {
                            Some((description, b6)) => match parse_str(b6) {
                                Some((status, b7)) => if b7.len() == 0 {
                                    Some(
                                        GiftView {
                                            id,
                                            name,
                                            recipient_id,
                                            description,
                                            status,
                                            created_at,
                                            updated_at,
                                        },
                                    )
                                } else {
                                    None
                                },
                                None => None,
                            },
                            None => None,
                        },
                        None => None,
                    },
                    None => None,
                },
                None => None,
            },
            None => None,
        },
        None => None,
    }
}

pub open spec fn dec_recipient(b: Seq<u8>) -> Option<RecipientView> {
    match parse_u64(b) {
        Some((id, b1)) => match parse_u64(b1) {
            Some((created_at, b2)) => match parse_opt_u64(b2) {
                Some((updated_at, b3)) => match parse_str(b3) {
                    Some((name, b4)) => match parse_str(b4) {
                        Some((relationship, b5)) => if b5.len() == 0 {
                            Some(RecipientView { id, name, relationship, created_at, updated_at })
                        } else {
                            None
                        },
                        None => None,
                    },
                    None => None,
                },
                None => None,
            },
            None => None,
        },
        None => None,
    }
}

// ---------------------------------------------------------------------------
// Round-trip lemmas: each parser undoes the matching encoder
// ---------------------------------------------------------------------------

pub proof fn lemma_parse_u64_enc(x: u64, rest: Seq<u8>)
    ensures
        parse_u64(enc_u64(x) + rest) == Some((x, rest)),
{
    lemma_auto_spec_u64_to_from_le_bytes();
    assert((enc_u64(x) + rest).take(8) =~= enc_u64(x));
    assert((enc_u64(x) + rest).skip(8) =~= rest);
}

pub proof fn lemma_parse_opt_u64_enc(x: Option<u64>, rest: Seq<u8>)
    ensures
        parse_opt_u64(enc_opt_u64(x) + rest) == Some((x, rest)),
{
    match x {
        None => {
            assert((enc_opt_u64(x) + rest)[0] == 0u8);
            assert((enc_opt_u64(x) + rest).skip(1) =~= rest);
        },
        Some(v) => {
            let b = enc_opt_u64(x) + rest;
            assert(b[0] == 1u8);
            assert(b.skip(1) =~= enc_u64(v) + rest);
            lemma_parse_u64_enc(v, rest);
        },
    }
}

pub proof fn lemma_parse_chars_enc(s: Seq<char>, rest: Seq<u8>)
    ensures
        parse_chars(enc_chars(s) + rest, s.len()) == Some((s, rest)),
    decreases s.len(),
{
    lemma_auto_spec_u32_to_from_le_bytes();
    if s.len() == 0 {
        assert(enc_chars(s) + rest =~= rest);
        assert(Seq::<char>::empty() =~= s);
    } else {
        let c = s[0];
        let u = c as u32;
        char_is_scalar(c);
        char_u32_cast(c, u);
        let b = enc_chars(s) + rest;
        assert(b.take(4) =~= spec_u32_to_le_bytes(u));
        assert(b.skip(4) =~= enc_chars(s.drop_first()) + rest);
        lemma_parse_chars_enc(s.drop_first(), rest);
        assert(seq![u as char] + s.drop_first() =~= s);
    }
}

pub proof fn lemma_parse_str_enc(s: Seq<char>, rest: Seq<u8>)
    requires
        s.len() <= 0xFFFF,
    ensures
        parse_str(enc_str(s) + rest) == Some((s, rest)),
{
    lemma_auto_spec_u16_to_from_le_bytes();
    let b = enc_str(s) + rest;
    assert(b.take(2) =~= spec_u16_to_le_bytes(s.len() as u16));
    assert(b.skip(2) =~= enc_chars(s) + rest);
    lemma_parse_chars_enc(s, rest);
}

/// The round-trip law for the gift schema: decoding the encoding of any
/// record that meets the size convention gives the record back.
pub proof fn lemma_gift_round_trip(g: GiftView)
    requires
        gift_fits(g),
    ensures
        dec_gift(enc_gift(g)) == Some(g),
{
    let e4 = enc_str(g.name) + (enc_str(g.description) + (enc_str(g.status)
        + Seq::<u8>::empty()));
    let e3 = enc_opt_u64(g.updated_at) + e4;
    let e2 = enc_u64(g.created_at) + e3;
    let e1 = enc_u64(g.recipient_id) + e2;
    let e0 = enc_u64(g.id) + e1;
    assert(enc_gift(g) =~= e0);
    lemma_parse_u64_enc(g.id, e1);
    lemma_parse_u64_enc(g.recipient_id, e2);
    lemma_parse_u64_enc(g.created_at, e3);
    lemma_parse_opt_u64_enc(g.updated_at, e4);
    lemma_parse_str_enc(g.name, enc_str(g.description) + (enc_str(g.status) + Seq::<u8>::empty()));
    lemma_parse_str_enc(g.description, enc_str(g.status) + Seq::<u8>::empty());
    lemma_parse_str_enc(g.status, Seq::<u8>::empty());
}

/// The round-trip law for the recipient schema.
pub proof fn lemma_recipient_round_trip(r: RecipientView)
    requires
        recipient_fits(r),
    ensures
        dec_recipient(enc_recipient(r)) == Some(r),
{
    let e3 = enc_str(r.name) + (enc_str(r.relationship) + Seq::<u8>::empty());
    let e2 = enc_opt_u64(r.updated_at) + e3;
    let e1 = enc_u64(r.created_at) + e2;
    let e0 = enc_u64(r.id) + e1;
    assert(enc_recipient(r) =~= e0);
    lemma_parse_u64_enc(r.id, e1);
    lemma_parse_u64_enc(r.created_at, e2);
    lemma_parse_opt_u64_enc(r.updated_at, e3);
    lemma_parse_str_enc(r.name, enc_str(r.relationship) + Seq::<u8>::empty());
    lemma_parse_str_enc(r.relationship, Seq::<u8>::empty());
}

// ---------------------------------------------------------------------------
// Canonicity lemmas: a byte sequence that decodes is exactly the encoding
// of what it decodes to.  They let a table opened over a persisted region
// re-establish its invariant from what it reads back.
// ---------------------------------------------------------------------------

pub proof fn lemma_parse_u64_exact(b: Seq<u8>, v: u64, rest: Seq<u8>)
    requires
        parse_u64(b) == Some((v, rest)),
    ensures
        b == enc_u64(v) + rest,
{
    lemma_auto_spec_u64_to_from_le_bytes();
    assert(b =~= b.take(8) + b.skip(8));
}

pub proof fn lemma_parse_opt_u64_exact(b: Seq<u8>, v: Option<u64>, rest: Seq<u8>)
    requires
        parse_opt_u64(b) == Some((v, rest)),
    ensures
        b == enc_opt_u64(v) + rest,
{
    if b[0] == 0u8 {
        assert(b =~= seq![0u8] + b.skip(1));
    } else {
        let (x, r) = parse_u64(b.skip(1))->0;
        lemma_parse_u64_exact(b.skip(1), x, r);
        assert(b =~= seq![1u8] + b.skip(1));
        assert(b =~= (seq![1u8] + enc_u64(x)) + rest);
    }
}

pub proof fn lemma_parse_chars_exact(b: Seq<u8>, n: nat, s: Seq<char>, rest: Seq<u8>)
    requires
        parse_chars(b, n) == Some((s, rest)),
    ensures
        b == enc_chars(s) + rest,
        s.len() == n,
    decreases n,
{
    lemma_auto_spec_u32_to_from_le_bytes();
    if n == 0 {
        assert(b =~= enc_chars(s) + rest);
    } else {
        let (u, r1) = parse_u32(b)->0;
        let (s2, r2) = parse_chars(r1, (n - 1) as nat)->0;
        lemma_parse_chars_exact(r1, (n - 1) as nat, s2, rest);
        assert((u as char) as u32 == u);
        assert(s.drop_first() =~= s2);
        assert(b =~= b.take(4) + b.skip(4));
        assert(b =~= spec_u32_to_le_bytes(s[0] as u32) + (enc_chars(s2) + rest));
        assert(b =~= enc_chars(s) + rest);
    }
}

pub proof fn lemma_parse_str_exact(b: Seq<u8>, s: Seq<char>, rest: Seq<u8>)
    requires
        parse_str(b) == Some((s, rest)),
    ensures
        b == enc_str(s) + rest,
        s.len() <= 0xFFFF,
{
    lemma_auto_spec_u16_to_from_le_bytes();
    let (n16, r1) = parse_u16(b)->0;
    lemma_parse_chars_exact(r1, n16 as nat, s, rest);
    assert(s.len() as u16 == n16);
    assert(b =~= b.take(2) + b.skip(2));
    assert(b =~= (spec_u16_to_le_bytes(s.len() as u16) + enc_chars(s)) + rest);
}

/// A byte sequence that decodes as a gift is exactly that gift's encoding.
pub proof fn lemma_dec_gift_exact(b: Seq<u8>, g: GiftView)
    requires
        dec_gift(b) == Some(g),
    ensures
        b == enc_gift(g),
        b.len() == gift_encoded_len(g),
{
    let (id, b1) = parse_u64(b)->0;
    let (recipient_id, b2) = parse_u64(b1)->0;
    let (created_at, b3) = parse_u64(b2)->0;
    let (updated_at, b4) = parse_opt_u64(b3)->0;
    let (name, b5) = parse_str(b4)->0;
    let (description, b6) = parse_str(b5)->0;
    let (status, b7) = parse_str(b6)->0;
    lemma_parse_u64_exact(b, id, b1);
    lemma_parse_u64_exact(b1, recipient_id, b2);
    lemma_parse_u64_exact(b2, created_at, b3);
    lemma_parse_opt_u64_exact(b3, updated_at, b4);
    lemma_parse_str_exact(b4, name, b5);
    lemma_parse_str_exact(b5, description, b6);
    lemma_parse_str_exact(b6, status, b7);
    assert(b7 =~= Seq::<u8>::empty());
    assert(b =~= enc_gift(g));
    lemma_enc_gift_len(g);
}

/// A byte sequence that decodes as a recipient is exactly that
/// recipient's encoding.
pub proof fn lemma_dec_recipient_exact(b: Seq<u8>, r: RecipientView)
    requires
        dec_recipient(b) == Some(r),
    ensures
        b == enc_recipient(r),
        b.len() == recipient_encoded_len(r),
{
    let (id, b1) = parse_u64(b)->0;
    let (created_at, b2) = parse_u64(b1)->0;
    let (updated_at, b3) = parse_opt_u64(b2)->0;
    let (name, b4) = parse_str(b3)->0;
    let (relationship, b5) = parse_str(b4)->0;
    lemma_parse_u64_exact(b, id, b1);
    lemma_parse_u64_exact(b1, created_at, b2);
    lemma_parse_opt_u64_exact(b2, updated_at, b3);
    lemma_parse_str_exact(b3, name, b4);
    lemma_parse_str_exact(b4, relationship, b5);
    assert(b5 =~= Seq::<u8>::empty());
    assert(b =~= enc_recipient(r));
    lemma_enc_recipient_len(r);
}

pub proof fn lemma_enc_chars_snoc(s: Seq<char>, c: char)
    ensures
        enc_chars(s.push(c)) == enc_chars(s) + spec_u32_to_le_bytes(c as u32),
    decreases s.len(),
{
    lemma_auto_spec_u32_to_from_le_bytes();
    if s.len() == 0 {
        let t = s.push(c);
        assert(t.len() == 1);
        assert(t[0] == c);
        assert(t.drop_first() =~= Seq::<char>::empty());
        assert(enc_chars(t) == spec_u32_to_le_bytes(t[0] as u32) + enc_chars(t.drop_first()));
        assert(enc_chars(t.drop_first()) == Seq::<u8>::empty());
        assert(enc_chars(s) == Seq::<u8>::empty());
        assert(enc_chars(t) =~= enc_chars(s) + spec_u32_to_le_bytes(c as u32));
    } else {
        assert(s.push(c)[0] == s[0]);
        assert(s.push(c).drop_first() =~= s.drop_first().push(c));
        lemma_enc_chars_snoc(s.drop_first(), c);
        assert(enc_chars(s.push(c)) =~= enc_chars(s) + spec_u32_to_le_bytes(c as u32));
    }
}

// ---------------------------------------------------------------------------
// Executable encoders
// ---------------------------------------------------------------------------

fn append_u64(out: &mut Vec<u8>, x: u64)
    ensures
        final(out)@ == old(out)@ + enc_u64(x),
{
    let mut b = u64_to_le_bytes(x);
    out.append(&mut b);
}

fn append_opt_u64(out: &mut Vec<u8>, x: &Option<u64>)
    ensures
        final(out)@ == old(out)@ + enc_opt_u64(*x),
{
    match x {
        None => {
            out.push(0u8);
            proof {
                assert(old(out)@.push(0u8) =~= old(out)@ + enc_opt_u64(*x));
            }
        },
        Some(v) => {
            out.push(1u8);
            append_u64(out, *v);
            proof {
                assert(old(out)@.push(1u8) + enc_u64(*v) =~= old(out)@ + enc_opt_u64(*x));
            }
        },
    }
}

fn append_str(out: &mut Vec<u8>, s: &String)
    requires
        s@.len() <= 0xFFFF,
    ensures
        final(out)@ == old(out)@ + enc_str(s@),
{
    let n = s.as_str().unicode_len();
    let mut lb = u16_to_le_bytes(n as u16);
    out.append(&mut lb);
    let ghost base = out@;
    let mut i: usize = 0;
    while i < n
        invariant
            i <= n,
            n == s@.len(),
            base == old(out)@ + spec_u16_to_le_bytes(s@.len() as u16),
            out@ == base + enc_chars(s@.take(i as int)),
        decreases n - i,
    {
        let c = s.as_str().get_char(i);
        let mut cb = u32_to_le_bytes(c as u32);
        out.append(&mut cb);
        proof {
            assert(s@.take(i as int).push(s@[i as int]) =~= s@.take(i as int + 1));
            lemma_enc_chars_snoc(s@.take(i as int), c);
        }
        i = i + 1;
    }
    proof {
        assert(s@.take(n as int) =~= s@);
        assert(base + enc_chars(s@) =~= old(out)@ + enc_str(s@));
    }
}

/// Encodes a gift record, or reports the fatal condition of a record whose
/// fields exceed the schema's size convention.  Nothing is written anywhere
/// on rejection: the check happens before any byte is produced.
pub fn encode_gift(g: &Gift) -> (r: Result<Vec<u8>, Error>)
    ensures
        r is Ok <==> gift_fits(g@),
        r matches Ok(v) ==> v@ == enc_gift(g@) && v@.len() <= MAX_ENCODED_SIZE,
        r matches Err(e) ==> e == Error::Fatal,
{
    let n1 = g.name.as_str().unicode_len();
    let n2 = g.description.as_str().unicode_len();
    let n3 = g.status.as_str().unicode_len();
    if n1 > MAX_ENCODED_SIZE || n2 > MAX_ENCODED_SIZE || n3 > MAX_ENCODED_SIZE {
        return Err(Error::Fatal);
    }
    let opt_len: usize = match g.updated_at {
        None => 1,
        Some(_) => 9,
    };
    let total: usize = 24 + opt_len + 6 + 4 * (n1 + n2 + n3);
    if total > MAX_ENCODED_SIZE {
        return Err(Error::Fatal);
    }
    let mut out: Vec<u8> = Vec::new();
    append_u64(&mut out, g.id);
    append_u64(&mut out, g.recipient_id);
    append_u64(&mut out, g.created_at);
    append_opt_u64(&mut out, &g.updated_at);
    append_str(&mut out, &g.name);
    append_str(&mut out, &g.description);
    append_str(&mut out, &g.status);
    proof {
        lemma_enc_gift_len(g@);
        assert(out@ =~= enc_gift(g@));
    }
    Ok(out)
}

/// Encodes a recipient record; rejects records over the size bound the same
/// way.
pub fn encode_recipient(rec: &Recipient) -> (r: Result<Vec<u8>, Error>)
    ensures
        r is Ok <==> recipient_fits(rec@),
        r matches Ok(v) ==> v@ == enc_recipient(rec@) && v@.len() <= MAX_ENCODED_SIZE,
        r matches Err(e) ==> e == Error::Fatal,
{
    let n1 = rec.name.as_str().unicode_len();
    let n2 = rec.relationship.as_str().unicode_len();
    if n1 > MAX_ENCODED_SIZE || n2 > MAX_ENCODED_SIZE {
        return Err(Error::Fatal);
    }
    let opt_len: usize = match rec.updated_at {
        None => 1,
        Some(_) => 9,
    };
    let total: usize = 16 + opt_len + 4 + 4 * (n1 + n2);
    if total > MAX_ENCODED_SIZE {
        return Err(Error::Fatal);
    }
    let mut out: Vec<u8> = Vec::new();
    append_u64(&mut out, rec.id);
    append_u64(&mut out, rec.created_at);
    append_opt_u64(&mut out, &rec.updated_at);
    append_str(&mut out, &rec.name);
    append_str(&mut out, &rec.relationship);
    proof {
        lemma_enc_recipient_len(rec@);
        assert(out@ =~= enc_recipient(rec@));
    }
    Ok(out)
}

// ---------------------------------------------------------------------------
// Executable decoders
// ---------------------------------------------------------------------------

fn read_u64(bytes: &Vec<u8>, pos: usize) -> (r: Option<(u64, usize)>)
    requires
        pos <= bytes@.len(),
    ensures
        match r {
            Some((v, p2)) => {
                &&& parse_u64(bytes@.skip(pos as int)) == Some((v, bytes@.skip(p2 as int)))
                &&& pos <= p2 <= bytes@.len()
            },
            None => parse_u64(bytes@.skip(pos as int)) is None,
        },
{
    if bytes.len() - pos >= 8 {
        let sl = slice_subrange(bytes.as_slice(), pos, pos + 8);
        let v = u64_from_le_bytes(sl);
        proof {
            assert(bytes@.skip(pos as int).take(8) =~= bytes@.subrange(
                pos as int,
                pos as int + 8,
            ));
            assert(bytes@.skip(pos as int).skip(8) =~= bytes@.skip(pos as int + 8));
        }
        Some((v, pos + 8))
    } else {
        None
    }
}

fn read_u16(bytes: &Vec<u8>, pos: usize) -> (r: Option<(u16, usize)>)
    requires
        pos <= bytes@.len(),
    ensures
        match r {
            Some((v, p2)) => {
                &&& parse_u16(bytes@.skip(pos as int)) == Some((v, bytes@.skip(p2 as int)))
                &&& pos <= p2 <= bytes@.len()
            },
            None => parse_u16(bytes@.skip(pos as int)) is None,
        },
{
    if bytes.len() - pos >= 2 {
        let sl = slice_subrange(bytes.as_slice(), pos, pos + 2);
        let v = u16_from_le_bytes(sl);
        proof {
            assert(bytes@.skip(pos as int).take(2) =~= bytes@.subrange(
                pos as int,
                pos as int + 2,
            ));
            assert(bytes@.skip(pos as int).skip(2) =~= bytes@.skip(pos as int + 2));
        }
        Some((v, pos + 2))
    } else {
        None
    }
}

fn read_u32(bytes: &Vec<u8>, pos: usize) -> (r: Option<(u32, usize)>)
    requires
        pos <= bytes@.len(),
    ensures
        match r {
            Some((v, p2)) => {
                &&& parse_u32(bytes@.skip(pos as int)) == Some((v, bytes@.skip(p2 as int)))
                &&& pos <= p2 <= bytes@.len()
            },
            None => parse_u32(bytes@.skip(pos as int)) is None,
        },
{
    if bytes.len() - pos >= 4 {
        let sl = slice_subrange(bytes.as_slice(), pos, pos + 4);
        let v = u32_from_le_bytes(sl);
        proof {
            assert(bytes@.skip(pos as int).take(4) =~= bytes@.subrange(
                pos as int,
                pos as int + 4,
            ));
            assert(bytes@.skip(pos as int).skip(4) =~= bytes@.skip(pos as int + 4));
        }
        Some((v, pos + 4))
    } else {
        None
    }
}

fn read_opt_u64(bytes: &Vec<u8>, pos: usize) -> (r: Option<(Option<u64>, usize)>)
    requires
        pos <= bytes@.len(),
    ensures
        match r {
            Some((v, p2)) => {
                &&& parse_opt_u64(bytes@.skip(pos as int)) == Some((v, bytes@.skip(p2 as int)))
                &&& pos <= p2 <= bytes@.len()
            },
            None => parse_opt_u64(bytes@.skip(pos as int)) is None,
        },
{
    if bytes.len() - pos >= 1 {
        let tag = bytes[pos];
        proof {
            assert(bytes@.skip(pos as int)[0] == bytes@[pos as int]);
            assert(bytes@.skip(pos as int).skip(1) =~= bytes@.skip(pos as int + 1));
        }
        if tag == 0 {
            Some((None, pos + 1))
        } else if tag == 1 {
            match read_u64(bytes, pos + 1) {
                Some((v, p2)) => Some((Some(v), p2)),
                None => None,
            }
        } else {
            None
        }
    } else {
        None
    }
}

fn read_str(bytes: &Vec<u8>, pos: usize) -> (r: Option<(String, usize)>)
    requires
        pos <= bytes@.len(),
    ensures
        match r {
            Some((s, p2)) => {
                &&& parse_str(bytes@.skip(pos as int)) == Some((s@, bytes@.skip(p2 as int)))
                &&& pos <= p2 <= bytes@.len()
            },
            None => parse_str(bytes@.skip(pos as int)) is None,
        },
{
    let (n16, start) = match read_u16(bytes, pos) {
        Some(x) => x,
        None => {
            return None;
        },
    };
    let n = n16 as usize;
    let mut acc = String::new();
    let mut p = start;
    let mut i: usize = 0;
    while i < n
        invariant
            i <= n,
            pos <= start <= p <= bytes@.len(),
            acc@.len() == i,
            parse_u16(bytes@.skip(pos as int)) == Some((n16, bytes@.skip(start as int))),
            n == n16 as nat,
            match parse_chars(bytes@.skip(p as int), (n - i) as nat) {
                Some((s, rest)) => parse_chars(bytes@.skip(start as int), n as nat) == Some(
                    (acc@ + s, rest),
                ),
                None => parse_chars(bytes@.skip(start as int), n as nat) is None,
            },
        decreases n - i,
    {
        let (u, p2) = match read_u32(bytes, p) {
            Some(x) => x,
            None => {
                return None;
            },
        };
        let c = match char::from_u32(u) {
            Some(c) => c,
            None => {
                return None;
            },
        };
        proof {
            char_u32_cast(c, u);
            if let Some((s2, r2)) = parse_chars(bytes@.skip(p2 as int), (n - i - 1) as nat) {
                assert(acc@ + (seq![c] + s2) =~= acc@.push(c) + s2);
            }
        }
        acc.push(c);
        p = p2;
        i = i + 1;
    }
    proof {
        assert(acc@ + Seq::<char>::empty() =~= acc@);
    }
    Some((acc, p))
}

/// Decodes a gift record from the exact output of [`encode_gift`]; any byte
/// sequence that is not such an output is refused.
pub fn decode_gift(bytes: &Vec<u8>) -> (r: Option<Gift>)
    ensures
        match r {
            Some(g) => dec_gift(bytes@) == Some(g@),
            None => dec_gift(bytes@) is None,
        },
{
    proof {
        assert(bytes@.skip(0) =~= bytes@);
    }
    let (id, p1) = match read_u64(bytes, 0) {
        Some(x) => x,
        None => {
            return None;
        },
    };
    let (recipient_id, p2) = match read_u64(bytes, p1) {
        Some(x) => x,
        None => {
            return None;
        },
    };
    let (created_at, p3) = match read_u64(bytes, p2) {
        Some(x) => x,
        None => {
            return None;
        },
    };
    let (updated_at, p4) = match read_opt_u64(bytes, p3) {
        Some(x) => x,
        None => {
            return None;
        },
    };
    let (name, p5) = match read_str(bytes, p4) {
        Some(x) => x,
        None => {
            return None;
        },
    };
    let (description, p6) = match read_str(bytes, p5) {
        Some(x) => x,
        None => {
            return None;
        },
    };
    let (status, p7) = match read_str(bytes, p6) {
        Some(x) => x,
        None => {
            return None;
        },
    };
    if p7 != bytes.len() {
        return None;
    }
    Some(Gift { id, name, recipient_id, description, status, created_at, updated_at })
}

/// Decodes a recipient record the same way.
pub fn decode_recipient(bytes: &Vec<u8>) -> (r: Option<Recipient>)
    ensures
        match r {
            Some(rec) => dec_recipient(bytes@) == Some(rec@),
            None => dec_recipient(bytes@) is None,
        },
{
    proof {
        assert(bytes@.skip(0) =~= bytes@);
    }
    let (id, p1) = match read_u64(bytes, 0) {
        Some(x) => x,
        None => {
            return None;
        },
    };
    let (created_at, p2) = match read_u64(bytes, p1) {
        Some(x) => x,
        None => {
            return None;
        },
    };
    let (updated_at, p3) = match read_opt_u64(bytes, p2) {
        Some(x) => x,
        None => {
            return None;
        },
    };
    let (name, p4) = match read_str(bytes, p3) {
        Some(x) => x,
        None => {
            return None;
        },
    };
    let (relationship, p5) = match read_str(bytes, p4) {
        Some(x) => x,
        None => {
            return None;
        },
    };
    if p5 != bytes.len() {
        return None;
    }
    Some(Recipient { id, name, relationship, created_at, updated_at })
}

} // verus!

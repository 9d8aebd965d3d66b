//! Name-based identifiers: an MD5 digest marked as a version 3 UUID, written
//! in the hyphenated lowercase hex form.

use vstd::prelude::*;
use vstd::string::*;

verus! {

/// The MD5 digest of `data`.
pub uninterp spec fn md5_of(data: Seq<u8>) -> Seq<u8>;

/// Relies on `md5::compute`: the MD5 digest of the bytes given, as 16 bytes.
#[verifier::external_body]
fn md5_digest(data: &Vec<u8>) -> (r: [u8; 16])
    ensures
        r@ == md5_of(data@),
{
    md5::compute(data).0
}

/// The digest with the version nibble set to 3 and the variant bits to 10.
pub open spec fn uuid_bytes(d: Seq<u8>) -> Seq<u8> {
    d.update(6, (d[6] & 0x0f) | 0x30).update(8, (d[8] & 0x3f) | 0x80)
}

/// The lowercase hex digits.
pub open spec fn hex_digits() -> Seq<char> {
    "0123456789abcdef"@
}

/// Byte `b` as two lowercase hex digits.
pub open spec fn hex_byte(b: u8) -> Seq<char> {
    seq![hex_digits()[(b / 16) as int], hex_digits()[(b % 16) as int]]
}

/// What stands before byte `i` in the hyphenated form: a hyphen before bytes
/// 4, 6, 8 and 10.
pub open spec fn sep_before(i: int) -> Seq<char> {
    if i == 4 || i == 6 || i == 8 || i == 10 {
        seq!['-']
    } else {
        seq![]
    }
}

/// Bytes `bs` in the hyphenated hex form.
pub open spec fn hyphenated_hex(bs: Seq<u8>) -> Seq<char>
    decreases bs.len(),
{
    if bs.len() == 0 {
        seq![]
    } else {
        hyphenated_hex(bs.drop_last()) + sep_before(bs.len() - 1) + hex_byte(bs.last())
    }
}

/// The identifier that digest `d` gives.
pub open spec fn uuid_text(d: Seq<u8>) -> Seq<char> {
    hyphenated_hex(uuid_bytes(d))
}

/// The identifier that a 16-byte digest gives: the version and variant bits
/// set, then each byte as two lowercase hex digits, hyphens after the 4th,
/// 6th, 8th and 10th bytes.
pub fn uuid_from_digest(d: [u8; 16]) -> (r: String)
    ensures
        r@ == uuid_text(d@),
{
    let mut b = d;
    b[6] = (b[6] & 0x0f) | 0x30;
    b[8] = (b[8] & 0x3f) | 0x80;
    assert(b@ =~= uuid_bytes(d@));
    let hex = "0123456789abcdef";
    proof {
        reveal_strlit("0123456789abcdef");
        reveal_strlit("-");
    }
    let mut out = String::new();
    let mut i: usize = 0;
    assert(b@.subrange(0, 0).len() == 0);
    assert(out@ =~= hyphenated_hex(b@.subrange(0, 0)));
    while i < 16
        invariant
            i <= 16,
            hex@ == hex_digits(),
            hex@.len() == 16,
            "-"@ == seq!['-'],
            b@ == uuid_bytes(d@),
            out@ == hyphenated_hex(b@.subrange(0, i as int)),
        decreases 16 - i,
    {
        let ghost before = out@;
        if i == 4 || i == 6 || i == 8 || i == 10 {
            out.append("-");
        }
        let x = b[i];
        let hi = (x / 16) as usize;
        let lo = (x % 16) as usize;
        out.append(hex.substring_char(hi, hi + 1));
        out.append(hex.substring_char(lo, lo + 1));
        proof {
            let s = b@.subrange(0, i + 1);
            assert(s.drop_last() =~= b@.subrange(0, i as int));
            assert(s.last() == x);
            assert(hex@.subrange(hi as int, hi + 1) =~= seq![hex@[hi as int]]);
            assert(hex@.subrange(lo as int, lo + 1) =~= seq![hex@[lo as int]]);
            assert(out@ =~= before + sep_before(i as int) + hex_byte(x));
        }
        i = i + 1;
    }
    assert(b@.subrange(0, 16) =~= b@);
    out
}

/// The name-based identifier of `name`: its MD5 digest, marked as version 3,
/// in the hyphenated hex form.
pub fn name_uuid_from_bytes(name: Vec<u8>) -> (r: String)
    ensures
        r@ == uuid_text(md5_of(name@)),
{
    let d = md5_digest(&name);
    uuid_from_digest(d)
}

} // verus!

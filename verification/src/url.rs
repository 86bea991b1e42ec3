//! The two URLs the browser builds: the listing request for a path, and
//! the media address of a file.
//!
//! The listing URL carries the path percent-encoded as a query parameter:
//! every byte outside the unreserved set is written as `%` and two upper
//! case hex digits.

use vstd::prelude::*;

verus! {

/// The bytes that percent-encoding leaves as they are: letters, digits,
/// and `- _ . ! ~ * ' ( )`.
pub open spec fn is_unreserved(b: u8) -> bool {
    (65 <= b <= 90) || (97 <= b <= 122) || (48 <= b <= 57) || b == 45 || b == 95 || b == 46 || b
        == 33 || b == 126 || b == 42 || b == 39 || b == 40 || b == 41
}

/// The upper-case hex digit for a value below sixteen.
pub open spec fn spec_hex_digit(n: u8) -> u8 {
    if n < 10 {
        (48 + n) as u8
    } else {
        (55 + n) as u8
    }
}

/// The encoding of one byte: itself when unreserved, else `%` and its two
/// hex digits.
pub open spec fn spec_enc_byte(b: u8) -> Seq<u8> {
    if is_unreserved(b) {
        seq![b]
    } else {
        seq![37u8, spec_hex_digit(b / 16), spec_hex_digit(b % 16)]
    }
}

/// The percent-encoding of a byte string, byte for byte.
pub open spec fn spec_percent_encoding(s: Seq<u8>) -> Seq<u8>
    decreases s.len(),
{
    if s.len() == 0 {
        Seq::empty()
    } else {
        spec_enc_byte(s.first()) + spec_percent_encoding(s.skip(1))
    }
}

proof fn lemma_percent_encoding_push(s: Seq<u8>, b: u8)
    ensures
        spec_percent_encoding(s.push(b)) == spec_percent_encoding(s) + spec_enc_byte(b),
    decreases s.len(),
{
    if s.len() == 0 {
        assert(s.push(b).len() == 1);
        assert(s.push(b).first() == b);
        assert(s.push(b).skip(1) =~= Seq::<u8>::empty());
        assert(spec_percent_encoding(s.push(b).skip(1)) == Seq::<u8>::empty());
        assert(spec_percent_encoding(s.push(b)) == spec_enc_byte(b) + Seq::<u8>::empty());
        assert(spec_percent_encoding(s) == Seq::<u8>::empty());
        assert(spec_enc_byte(b) + Seq::<u8>::empty() =~= Seq::<u8>::empty() + spec_enc_byte(b));
    } else {
        assert(s.push(b).first() == s.first());
        assert(s.push(b).skip(1) =~= s.skip(1).push(b));
        lemma_percent_encoding_push(s.skip(1), b);
        assert(spec_enc_byte(s.first()) + (spec_percent_encoding(s.skip(1)) + spec_enc_byte(b))
            =~= (spec_enc_byte(s.first()) + spec_percent_encoding(s.skip(1))) + spec_enc_byte(b));
    }
}

/// Percent-encode a byte string.
pub fn percent_encode(v: &Vec<u8>) -> (r: Vec<u8>)
    ensures
        r@ == spec_percent_encoding(v@),
{
    let mut r: Vec<u8> = Vec::new();
    let mut i: usize = 0;
    proof {
        assert(v@.take(0) =~= Seq::<u8>::empty());
    }
    while i < v.len()
        invariant
            i <= v.len(),
            r@ == spec_percent_encoding(v@.take(i as int)),
        decreases v.len() - i,
    {
        let b = v[i];
        if (65 <= b && b <= 90) || (97 <= b && b <= 122) || (48 <= b && b <= 57) || b == 45 || b
            == 95 || b == 46 || b == 33 || b == 126 || b == 42 || b == 39 || b == 40 || b == 41 {
            r.push(b);
        } else {
            r.push(37);
            r.push(hex_digit(b / 16));
            r.push(hex_digit(b % 16));
        }
        i = i + 1;
        proof {
            lemma_percent_encoding_push(v@.take(i - 1 as int), b);
            assert(v@.take(i - 1 as int).push(b) =~= v@.take(i as int));
            assert(r@ =~= spec_percent_encoding(v@.take(i as int)));
        }
    }
    proof {
        assert(v@.take(v@.len() as int) =~= v@);
    }
    r
}

fn hex_digit(n: u8) -> (r: u8)
    requires
        n < 16,
    ensures
        r == spec_hex_digit(n),
{
    if n < 10 {
        48 + n
    } else {
        55 + n
    }
}

/// The fixed head of every listing URL: `/api/list?prefix=`.
pub open spec fn list_prefix() -> Seq<u8> {
    seq![47u8, 97, 112, 105, 47, 108, 105, 115, 116, 63, 112, 114, 101, 102, 105, 120, 61]
}

/// The listing URL for a path: the fixed head followed by the path,
/// percent-encoded.
pub open spec fn spec_list_url(path: Seq<u8>) -> Seq<u8> {
    list_prefix() + spec_percent_encoding(path)
}

/// Build the listing URL for `path`.
pub fn list_url(path: &Vec<u8>) -> (r: Vec<u8>)
    ensures
        r@ == spec_list_url(path@),
{
    let mut r: Vec<u8> = Vec::new();
    r.push(47);
    r.push(97);
    r.push(112);
    r.push(105);
    r.push(47);
    r.push(108);
    r.push(105);
    r.push(115);
    r.push(116);
    r.push(63);
    r.push(112);
    r.push(114);
    r.push(101);
    r.push(102);
    r.push(105);
    r.push(120);
    r.push(61);
    proof {
        assert(r@ =~= list_prefix());
    }
    let mut enc = percent_encode(path);
    r.append(&mut enc);
    r
}

/// The fixed head of every media URL: `/media/`.
pub open spec fn media_prefix() -> Seq<u8> {
    seq![47u8, 109, 101, 100, 105, 97, 47]
}

/// The media URL of an entry: the fixed head, the directory path, and the
/// entry's name, joined as they are.
pub open spec fn spec_media_url(path: Seq<u8>, name: Seq<u8>) -> Seq<u8> {
    media_prefix() + path + name
}

/// Build the media URL for the entry `name` under `path`.
pub fn media_url(path: &Vec<u8>, name: &Vec<u8>) -> (r: Vec<u8>)
    ensures
        r@ == spec_media_url(path@, name@),
{
    let mut r: Vec<u8> = Vec::new();
    r.push(47);
    r.push(109);
    r.push(101);
    r.push(100);
    r.push(105);
    r.push(97);
    r.push(47);
    proof {
        assert(r@ =~= media_prefix());
    }
    let mut p = path.clone();
    r.append(&mut p);
    let mut n = name.clone();
    r.append(&mut n);
    r
}

} // verus!

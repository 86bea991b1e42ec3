//! The listing endpoint's response format.
//!
//! The endpoint answers with a JSON array of flat objects, one per
//! directory entry:
//! `{ "name": string, "path_type": "Dir" | "File", "size": number|null,
//! "mtime": number }`.
//! The parser here reads exactly that shape: the four keys in any order,
//! each once; string values with the single-character escapes; sizes and
//! timestamps as unsigned integers; `null` for an absent size. Anything
//! else is malformed, and a malformed body is rejected as a whole.

use vstd::prelude::*;

use crate::models::{DufsItem, EntryV, PathType};
use vstd::utf8::{decode_utf8, valid_utf8};

verus! {

pub const QUOTE: u8 = 34;

pub const BSLASH: u8 = 92;

pub const LBRACE: u8 = 123;

pub const RBRACE: u8 = 125;

pub const LBRACK: u8 = 91;

pub const RBRACK: u8 = 93;

pub const COMMA: u8 = 44;

pub const COLON: u8 = 58;

/// JSON whitespace: space, tab, line feed, carriage return.
pub open spec fn is_ws_byte(b: u8) -> bool {
    b == 32 || b == 9 || b == 10 || b == 13
}

/// The first position at or after `i` that holds no whitespace.
pub open spec fn skip_ws(s: Seq<u8>, i: int) -> int
    decreases s.len() - i,
{
    if 0 <= i < s.len() && is_ws_byte(s[i]) {
        skip_ws(s, i + 1)
    } else {
        i
    }
}

/// What a backslash escape stands for, for the escapes this format knows.
pub open spec fn unescape_byte(b: u8) -> Option<u8> {
    if b == QUOTE {
        Some(QUOTE)
    } else if b == BSLASH {
        Some(BSLASH)
    } else if b == 47 {
        Some(47)
    } else if b == 98 {
        Some(8)
    } else if b == 102 {
        Some(12)
    } else if b == 110 {
        Some(10)
    } else if b == 114 {
        Some(13)
    } else if b == 116 {
        Some(9)
    } else {
        None
    }
}

/// The body of a string from position `i` (just past the opening quote)
/// to its closing quote: the unescaped bytes and the position after the
/// quote. Control bytes and unknown escapes make it malformed.
pub open spec fn str_chars(s: Seq<u8>, i: int) -> Option<(Seq<u8>, int)>
    decreases s.len() - i,
{
    if i < 0 || i >= s.len() {
        None
    } else if s[i] == QUOTE {
        Some((Seq::empty(), i + 1))
    } else if s[i] == BSLASH {
        if i + 1 < s.len() {
            match unescape_byte(s[i + 1]) {
                Some(c) => match str_chars(s, i + 2) {
                    Some((rest, j)) => Some((seq![c] + rest, j)),
                    None => None,
                },
                None => None,
            }
        } else {
            None
        }
    } else if s[i] < 32 {
        None
    } else {
        match str_chars(s, i + 1) {
            Some((rest, j)) => Some((seq![s[i]] + rest, j)),
            None => None,
        }
    }
}

/// A quoted string at position `i`.
pub open spec fn parse_string(s: Seq<u8>, i: int) -> Option<(Seq<u8>, int)> {
    if 0 <= i < s.len() && s[i] == QUOTE {
        str_chars(s, i + 1)
    } else {
        None
    }
}

pub open spec fn is_digit(b: u8) -> bool {
    48 <= b <= 57
}

/// Decimal digits from `i` folded onto `acc`; more than `u64::MAX` is
/// malformed.
pub open spec fn digits_from(s: Seq<u8>, i: int, acc: u64) -> Option<(u64, int)>
    decreases s.len() - i,
{
    if 0 <= i < s.len() && is_digit(s[i]) {
        let d = (s[i] - 48) as u64;
        if acc * 10 + d <= u64::MAX {
            digits_from(s, i + 1, (acc * 10 + d) as u64)
        } else {
            None
        }
    } else {
        Some((acc, i))
    }
}

/// An unsigned decimal number at `i`: at least one digit, value within
/// `u64`.
pub open spec fn parse_number(s: Seq<u8>, i: int) -> Option<(u64, int)> {
    if 0 <= i < s.len() && is_digit(s[i]) {
        digits_from(s, i, 0)
    } else {
        None
    }
}

/// The literal `null` at `i`; the position after it.
pub open spec fn parse_null(s: Seq<u8>, i: int) -> Option<int> {
    if 0 <= i && i + 4 <= s.len() && s[i] == 110 && s[i + 1] == 117 && s[i + 2] == 108 && s[i + 3]
        == 108 {
        Some(i + 4)
    } else {
        None
    }
}

/// A size value: `null` for a directory, else an unsigned number.
pub open spec fn parse_size(s: Seq<u8>, i: int) -> Option<(Option<u64>, int)> {
    match parse_null(s, i) {
        Some(j) => Some((None, j)),
        None => match parse_number(s, i) {
            Some((n, j)) => Some((Some(n), j)),
            None => None,
        },
    }
}

/// The bytes of `Dir`.
pub open spec fn dir_str() -> Seq<u8> {
    seq![68u8, 105, 114]
}

/// The bytes of `File`.
pub open spec fn file_str() -> Seq<u8> {
    seq![70u8, 105, 108, 101]
}

/// A kind value: the string `Dir` or `File`.
pub open spec fn parse_path_type(s: Seq<u8>, i: int) -> Option<(PathType, int)> {
    match parse_string(s, i) {
        Some((b, j)) => if b == dir_str() {
            Some((PathType::Dir, j))
        } else if b == file_str() {
            Some((PathType::File, j))
        } else {
            None
        },
        None => None,
    }
}

/// Skip whitespace starting at `i`.
fn ws_from(v: &Vec<u8>, i: usize) -> (r: usize)
    requires
        i <= v.len(),
    ensures
        r as int == skip_ws(v@, i as int),
        i <= r <= v.len(),
{
    let mut j = i;
    while j < v.len() && (v[j] == 32 || v[j] == 9 || v[j] == 10 || v[j] == 13)
        invariant
            i <= j <= v.len(),
            skip_ws(v@, i as int) == skip_ws(v@, j as int),
        decreases v.len() - j,
    {
        j = j + 1;
    }
    j
}

/// Read a string body: from just past the opening quote to the closing
/// one, unescaping as it goes.
fn scan_str_chars(v: &Vec<u8>, i: usize) -> (r: Option<(Vec<u8>, usize)>)
    requires
        i <= v.len(),
    ensures
        (match r {
            Some((b, j)) => str_chars(v@, i as int) == Some((b@, j as int)) && i < j <= v.len(),
            None => str_chars(v@, i as int) is None,
        }),
    decreases v.len() - i,
{
    if i >= v.len() {
        return None;
    }
    let b = v[i];
    if b == QUOTE {
        let out: Vec<u8> = Vec::new();
        proof {
            assert(out@ =~= Seq::<u8>::empty());
        }
        Some((out, i + 1))
    } else if b == BSLASH {
        if i + 1 < v.len() {
            let e = v[i + 1];
            let c: u8 = if e == QUOTE {
                QUOTE
            } else if e == BSLASH {
                BSLASH
            } else if e == 47 {
                47
            } else if e == 98 {
                8
            } else if e == 102 {
                12
            } else if e == 110 {
                10
            } else if e == 114 {
                13
            } else if e == 116 {
                9
            } else {
                return None;
            };
            match scan_str_chars(v, i + 2) {
                Some((rest, j)) => {
                    let mut out = rest;
                    out.insert(0, c);
                    proof {
                        assert(out@ =~= seq![c] + out@.skip(1));
                        assert(out@.skip(1) =~= out@.subrange(1, out@.len() as int));
                    }
                    Some((out, j))
                },
                None => None,
            }
        } else {
            None
        }
    } else if b < 32 {
        None
    } else {
        match scan_str_chars(v, i + 1) {
            Some((rest, j)) => {
                let mut out = rest;
                out.insert(0, b);
                Some((out, j))
            },
            None => None,
        }
    }
}

/// A quoted string at `i`.
fn parse_string_at(v: &Vec<u8>, i: usize) -> (r: Option<(Vec<u8>, usize)>)
    requires
        i <= v.len(),
    ensures
        (match r {
            Some((b, j)) => parse_string(v@, i as int) == Some((b@, j as int)) && i < j <= v.len(),
            None => parse_string(v@, i as int) is None,
        }),
{
    if i < v.len() && v[i] == QUOTE {
        scan_str_chars(v, i + 1)
    } else {
        None
    }
}

/// An unsigned decimal number at `i`.
fn parse_number_at(v: &Vec<u8>, i: usize) -> (r: Option<(u64, usize)>)
    requires
        i <= v.len(),
    ensures
        (match r {
            Some((n, j)) => parse_number(v@, i as int) == Some((n, j as int)) && i < j <= v.len(),
            None => parse_number(v@, i as int) is None,
        }),
{
    if !(i < v.len() && 48 <= v[i] && v[i] <= 57) {
        return None;
    }
    let mut acc: u64 = 0;
    let mut j = i;
    loop
        invariant
            i <= j <= v.len(),
            i < v.len() && is_digit(v@[i as int]),
            digits_from(v@, i as int, 0) == digits_from(v@, j as int, acc),
        decreases v.len() - j,
    {
        if j < v.len() && 48 <= v[j] && v[j] <= 57 {
            let d = (v[j] - 48) as u64;
            match acc.checked_mul(10) {
                Some(m) => match m.checked_add(d) {
                    Some(n) => {
                        acc = n;
                        j = j + 1;
                    },
                    None => {
                        return None;
                    },
                },
                None => {
                    return None;
                },
            }
        } else {
            return Some((acc, j));
        }
    }
}

/// The literal `null` at `i`.
fn parse_null_at(v: &Vec<u8>, i: usize) -> (r: Option<usize>)
    requires
        i <= v.len(),
    ensures
        (match r {
            Some(j) => parse_null(v@, i as int) == Some(j as int) && i < j <= v.len(),
            None => parse_null(v@, i as int) is None,
        }),
{
    if v.len() >= 4 && i <= v.len() - 4 && v[i] == 110 && v[i + 1] == 117 && v[i + 2] == 108 && v[i
        + 3] == 108 {
        Some(i + 4)
    } else {
        None
    }
}

/// A size value at `i`.
fn parse_size_at(v: &Vec<u8>, i: usize) -> (r: Option<(Option<u64>, usize)>)
    requires
        i <= v.len(),
    ensures
        (match r {
            Some((n, j)) => parse_size(v@, i as int) == Some((n, j as int)) && i < j <= v.len(),
            None => parse_size(v@, i as int) is None,
        }),
{
    match parse_null_at(v, i) {
        Some(j) => Some((None, j)),
        None => match parse_number_at(v, i) {
            Some((n, j)) => Some((Some(n), j)),
            None => None,
        },
    }
}

fn is_dir_bytes(b: &Vec<u8>) -> (r: bool)
    ensures
        r == (b@ == dir_str()),
{
    let r = b.len() == 3 && b[0] == 68 && b[1] == 105 && b[2] == 114;
    proof {
        if r {
            assert(b@ =~= dir_str());
        } else if b@ == dir_str() {
            assert(b@.len() == 3 && b@[0] == 68 && b@[1] == 105 && b@[2] == 114);
        }
    }
    r
}

fn is_file_bytes(b: &Vec<u8>) -> (r: bool)
    ensures
        r == (b@ == file_str()),
{
    let r = b.len() == 4 && b[0] == 70 && b[1] == 105 && b[2] == 108 && b[3] == 101;
    proof {
        if r {
            assert(b@ =~= file_str());
        } else if b@ == file_str() {
            assert(b@.len() == 4 && b@[0] == 70 && b@[1] == 105 && b@[2] == 108 && b@[3] == 101);
        }
    }
    r
}

/// A kind value at `i`.
fn parse_path_type_at(v: &Vec<u8>, i: usize) -> (r: Option<(PathType, usize)>)
    requires
        i <= v.len(),
    ensures
        (match r {
            Some((t, j)) => parse_path_type(v@, i as int) == Some((t, j as int)) && i < j
                <= v.len(),
            None => parse_path_type(v@, i as int) is None,
        }),
{
    match parse_string_at(v, i) {
        Some((b, j)) => {
            if is_dir_bytes(&b) {
                Some((PathType::Dir, j))
            } else if is_file_bytes(&b) {
                Some((PathType::File, j))
            } else {
                None
            }
        },
        None => None,
    }
}

/// The bytes of the key `name`.
pub open spec fn name_key() -> Seq<u8> {
    seq![110u8, 97, 109, 101]
}

/// The bytes of the key `path_type`.
pub open spec fn path_type_key() -> Seq<u8> {
    seq![112u8, 97, 116, 104, 95, 116, 121, 112, 101]
}

/// The bytes of the key `size`.
pub open spec fn size_key() -> Seq<u8> {
    seq![115u8, 105, 122, 101]
}

/// The bytes of the key `mtime`.
pub open spec fn mtime_key() -> Seq<u8> {
    seq![109u8, 116, 105, 109, 101]
}

/// The fields of one entry while its object is read: each key's value
/// once it has been seen.
#[verifier::ext_equal]
pub ghost struct SlotsV {
    pub name: Option<Seq<u8>>,
    pub path_type: Option<PathType>,
    pub size: Option<Option<u64>>,
    pub mtime: Option<u64>,
}

pub open spec fn empty_slots() -> SlotsV {
    SlotsV { name: None, path_type: None, size: None, mtime: None }
}

/// The executable twin of `SlotsV`.
pub struct Slots {
    pub name: Option<Vec<u8>>,
    pub path_type: Option<PathType>,
    pub size: Option<Option<u64>>,
    pub mtime: Option<u64>,
}

impl View for Slots {
    type V = SlotsV;

    open spec fn view(&self) -> SlotsV {
        SlotsV {
            name: match self.name {
                Some(b) => Some(b@),
                None => None,
            },
            path_type: self.path_type,
            size: self.size,
            mtime: self.mtime,
        }
    }
}

/// One `"key": value` pair at `i`: the key must be one of the four the
/// format knows and must not have been seen before; its value fills the
/// slot.
pub open spec fn parse_pair(s: Seq<u8>, i: int, sl: SlotsV) -> Option<(SlotsV, int)> {
    match parse_string(s, i) {
        Some((key, j0)) => {
            let j1 = skip_ws(s, j0);
            if 0 <= j1 < s.len() && s[j1] == COLON {
                let j2 = skip_ws(s, j1 + 1);
                if key == name_key() {
                    if sl.name is None {
                        match parse_string(s, j2) {
                            Some((nb, j3)) => Some(
                                (
                                    SlotsV {
                                        name: Some(nb),
                                        path_type: sl.path_type,
                                        size: sl.size,
                                        mtime: sl.mtime,
                                    },
                                    j3,
                                ),
                            ),
                            None => None,
                        }
                    } else {
                        None
                    }
                } else if key == path_type_key() {
                    if sl.path_type is None {
                        match parse_path_type(s, j2) {
                            Some((t, j3)) => Some(
                                (
                                    SlotsV {
                                        name: sl.name,
                                        path_type: Some(t),
                                        size: sl.size,
                                        mtime: sl.mtime,
                                    },
                                    j3,
                                ),
                            ),
                            None => None,
                        }
                    } else {
                        None
                    }
                } else if key == size_key() {
                    if sl.size is None {
                        match parse_size(s, j2) {
                            Some((z, j3)) => Some(
                                (
                                    SlotsV {
                                        name: sl.name,
                                        path_type: sl.path_type,
                                        size: Some(z),
                                        mtime: sl.mtime,
                                    },
                                    j3,
                                ),
                            ),
                            None => None,
                        }
                    } else {
                        None
                    }
                } else if key == mtime_key() {
                    if sl.mtime is None {
                        match parse_number(s, j2) {
                            Some((m, j3)) => Some(
                                (
                                    SlotsV {
                                        name: sl.name,
                                        path_type: sl.path_type,
                                        size: sl.size,
                                        mtime: Some(m),
                                    },
                                    j3,
                                ),
                            ),
                            None => None,
                        }
                    } else {
                        None
                    }
                } else {
                    None
                }
            } else {
                None
            }
        },
        None => None,
    }
}

/// The pairs of an object from `i` to its closing brace.
pub open spec fn parse_pairs(s: Seq<u8>, i: int, sl: SlotsV) -> Option<(SlotsV, int)>
    decreases s.len() - i,
{
    match parse_pair(s, i, sl) {
        Some((sl2, j)) => {
            let j1 = skip_ws(s, j);
            if 0 <= j1 < s.len() && s[j1] == COMMA {
                let j2 = skip_ws(s, j1 + 1);
                if i < j2 <= s.len() {
                    parse_pairs(s, j2, sl2)
                } else {
                    None
                }
            } else if 0 <= j1 < s.len() && s[j1] == RBRACE {
                Some((sl2, j1 + 1))
            } else {
                None
            }
        },
        None => None,
    }
}

/// An entry from filled slots: all four fields present and the name
/// valid UTF-8.
pub open spec fn entry_of_slots(sl: SlotsV, k: int) -> Option<(EntryV, int)> {
    match (sl.name, sl.path_type, sl.size, sl.mtime) {
        (Some(nb), Some(t), Some(z), Some(m)) => if valid_utf8(nb) {
            Some((EntryV { name: decode_utf8(nb), path_type: t, size: z, mtime: m }, k))
        } else {
            None
        },
        _ => None,
    }
}

/// One entry object at `i`.
pub open spec fn parse_entry(s: Seq<u8>, i: int) -> Option<(EntryV, int)> {
    if 0 <= i < s.len() && s[i] == LBRACE {
        let j = skip_ws(s, i + 1);
        match parse_pairs(s, j, empty_slots()) {
            Some((sl, k)) => entry_of_slots(sl, k),
            None => None,
        }
    } else {
        None
    }
}

/// Entries from `i` to the closing bracket of the array.
pub open spec fn parse_entries(s: Seq<u8>, i: int) -> Option<(Seq<EntryV>, int)>
    decreases s.len() - i,
{
    match parse_entry(s, i) {
        Some((e, j)) => {
            let j1 = skip_ws(s, j);
            if 0 <= j1 < s.len() && s[j1] == COMMA {
                let j2 = skip_ws(s, j1 + 1);
                if i < j2 <= s.len() {
                    match parse_entries(s, j2) {
                        Some((rest, k)) => Some((seq![e] + rest, k)),
                        None => None,
                    }
                } else {
                    None
                }
            } else if 0 <= j1 < s.len() && s[j1] == RBRACK {
                Some((seq![e], j1 + 1))
            } else {
                None
            }
        },
        None => None,
    }
}

/// A whole listing body: an array of entries, nothing but whitespace
/// around it. `None` is a malformed body.
pub open spec fn spec_parse_listing(s: Seq<u8>) -> Option<Seq<EntryV>> {
    let i = skip_ws(s, 0);
    if 0 <= i < s.len() && s[i] == LBRACK {
        let j = skip_ws(s, i + 1);
        if 0 <= j < s.len() && s[j] == RBRACK {
            if skip_ws(s, j + 1) == s.len() {
                Some(Seq::empty())
            } else {
                None
            }
        } else {
            match parse_entries(s, j) {
                Some((es, k)) => if skip_ws(s, k) == s.len() {
                    Some(es)
                } else {
                    None
                },
                None => None,
            }
        }
    } else {
        None
    }
}

fn is_name_key(b: &Vec<u8>) -> (r: bool)
    ensures
        r == (b@ == name_key()),
{
    let r = b.len() == 4 && b[0] == 110 && b[1] == 97 && b[2] == 109 && b[3] == 101;
    proof {
        if r {
            assert(b@ =~= name_key());
        } else if b@ == name_key() {
            assert(b@.len() == 4 && b@[0] == 110 && b@[1] == 97 && b@[2] == 109 && b@[3] == 101);
        }
    }
    r
}

fn is_path_type_key(b: &Vec<u8>) -> (r: bool)
    ensures
        r == (b@ == path_type_key()),
{
    let r = b.len() == 9 && b[0] == 112 && b[1] == 97 && b[2] == 116 && b[3] == 104 && b[4] == 95
        && b[5] == 116 && b[6] == 121 && b[7] == 112 && b[8] == 101;
    proof {
        if r {
            assert(b@ =~= path_type_key());
        } else if b@ == path_type_key() {
            assert(b@.len() == 9 && b@[0] == 112 && b@[1] == 97 && b@[2] == 116 && b@[3] == 104
                && b@[4] == 95 && b@[5] == 116 && b@[6] == 121 && b@[7] == 112 && b@[8] == 101);
        }
    }
    r
}

fn is_size_key(b: &Vec<u8>) -> (r: bool)
    ensures
        r == (b@ == size_key()),
{
    let r = b.len() == 4 && b[0] == 115 && b[1] == 105 && b[2] == 122 && b[3] == 101;
    proof {
        if r {
            assert(b@ =~= size_key());
        } else if b@ == size_key() {
            assert(b@.len() == 4 && b@[0] == 115 && b@[1] == 105 && b@[2] == 122 && b@[3] == 101);
        }
    }
    r
}

fn is_mtime_key(b: &Vec<u8>) -> (r: bool)
    ensures
        r == (b@ == mtime_key()),
{
    let r = b.len() == 5 && b[0] == 109 && b[1] == 116 && b[2] == 105 && b[3] == 109 && b[4]
        == 101;
    proof {
        if r {
            assert(b@ =~= mtime_key());
        } else if b@ == mtime_key() {
            assert(b@.len() == 5 && b@[0] == 109 && b@[1] == 116 && b@[2] == 105 && b@[3] == 109
                && b@[4] == 101);
        }
    }
    r
}

/// Relies on `String::from_utf8`: it succeeds exactly on valid UTF-8,
/// and the string then holds those bytes' characters.
#[verifier::external_body]
fn string_from_bytes(v: Vec<u8>) -> (r: Option<String>)
    ensures
        r is Some <==> valid_utf8(v@),
        (r matches Some(s) ==> s@ == decode_utf8(v@)),
{
    String::from_utf8(v).ok()
}

fn parse_pair_at(v: &Vec<u8>, i: usize, sl: Slots) -> (r: Option<(Slots, usize)>)
    requires
        i <= v.len(),
    ensures
        (match r {
            Some((sl2, j)) => parse_pair(v@, i as int, sl@) == Some((sl2@, j as int)) && i < j
                <= v.len(),
            None => parse_pair(v@, i as int, sl@) is None,
        }),
{
    let Slots { name, path_type, size, mtime } = sl;
    match parse_string_at(v, i) {
        Some((key, j0)) => {
            let j1 = ws_from(v, j0);
            if j1 < v.len() && v[j1] == COLON {
                let j2 = ws_from(v, j1 + 1);
                if is_name_key(&key) {
                    if name.is_none() {
                        match parse_string_at(v, j2) {
                            Some((nb, j3)) => Some(
                                (Slots { name: Some(nb), path_type, size, mtime }, j3),
                            ),
                            None => None,
                        }
                    } else {
                        None
                    }
                } else if is_path_type_key(&key) {
                    if path_type.is_none() {
                        match parse_path_type_at(v, j2) {
                            Some((t, j3)) => Some(
                                (Slots { name, path_type: Some(t), size, mtime }, j3),
                            ),
                            None => None,
                        }
                    } else {
                        None
                    }
                } else if is_size_key(&key) {
                    if size.is_none() {
                        match parse_size_at(v, j2) {
                            Some((z, j3)) => Some(
                                (Slots { name, path_type, size: Some(z), mtime }, j3),
                            ),
                            None => None,
                        }
                    } else {
                        None
                    }
                } else if is_mtime_key(&key) {
                    if mtime.is_none() {
                        match parse_number_at(v, j2) {
                            Some((m, j3)) => Some(
                                (Slots { name, path_type, size, mtime: Some(m) }, j3),
                            ),
                            None => None,
                        }
                    } else {
                        None
                    }
                } else {
                    None
                }
            } else {
                None
            }
        },
        None => None,
    }
}

fn parse_pairs_at(v: &Vec<u8>, i: usize, sl: Slots) -> (r: Option<(Slots, usize)>)
    requires
        i <= v.len(),
    ensures
        (match r {
            Some((sl2, j)) => parse_pairs(v@, i as int, sl@) == Some((sl2@, j as int)) && i < j
                <= v.len(),
            None => parse_pairs(v@, i as int, sl@) is None,
        }),
    decreases v.len() - i,
{
    match parse_pair_at(v, i, sl) {
        Some((sl2, j)) => {
            let j1 = ws_from(v, j);
            if j1 < v.len() && v[j1] == COMMA {
                let j2 = ws_from(v, j1 + 1);
                if j2 > i {
                    parse_pairs_at(v, j2, sl2)
                } else {
                    None
                }
            } else if j1 < v.len() && v[j1] == RBRACE {
                Some((sl2, j1 + 1))
            } else {
                None
            }
        },
        None => None,
    }
}

fn parse_entry_at(v: &Vec<u8>, i: usize) -> (r: Option<(DufsItem, usize)>)
    requires
        i <= v.len(),
    ensures
        (match r {
            Some((item, j)) => parse_entry(v@, i as int) == Some((item@, j as int)) && i < j
                <= v.len(),
            None => parse_entry(v@, i as int) is None,
        }),
{
    if i < v.len() && v[i] == LBRACE {
        let j = ws_from(v, i + 1);
        let empty = Slots { name: None, path_type: None, size: None, mtime: None };
        match parse_pairs_at(v, j, empty) {
            Some((sl, k)) => {
                let Slots { name, path_type, size, mtime } = sl;
                match (name, path_type, size, mtime) {
                    (Some(nb), Some(t), Some(z), Some(m)) => {
                        let ghost nb_seq = nb@;
                        match string_from_bytes(nb) {
                            Some(s) => Some(
                                (DufsItem { name: s, path_type: t, size: z, mtime: m }, k),
                            ),
                            None => None,
                        }
                    },
                    _ => None,
                }
            },
            None => None,
        }
    } else {
        None
    }
}

fn parse_entries_at(v: &Vec<u8>, i: usize) -> (r: Option<(Vec<DufsItem>, usize)>)
    requires
        i <= v.len(),
    ensures
        (match r {
            Some((items, j)) => parse_entries(v@, i as int) == Some((items.deep_view(), j as int))
                && i < j <= v.len(),
            None => parse_entries(v@, i as int) is None,
        }),
    decreases v.len() - i,
{
    match parse_entry_at(v, i) {
        Some((e, j)) => {
            let j1 = ws_from(v, j);
            if j1 < v.len() && v[j1] == COMMA {
                let j2 = ws_from(v, j1 + 1);
                if j2 > i {
                    match parse_entries_at(v, j2) {
                        Some((rest, k)) => {
                            let ghost rest_deep = rest.deep_view();
                            let mut out = rest;
                            out.insert(0, e);
                            proof {
                                assert(out.deep_view() =~~= seq![e@] + rest_deep);
                            }
                            Some((out, k))
                        },
                        None => None,
                    }
                } else {
                    None
                }
            } else if j1 < v.len() && v[j1] == RBRACK {
                let mut out: Vec<DufsItem> = Vec::new();
                out.push(e);
                proof {
                    assert(out.deep_view() =~~= seq![e@]);
                }
                Some((out, j1 + 1))
            } else {
                None
            }
        },
        None => None,
    }
}

/// Parse a listing body. `Some` holds exactly the entries the body
/// describes, in their order; `None` reports a malformed body.
pub fn parse_listing(body: &Vec<u8>) -> (r: Option<Vec<DufsItem>>)
    ensures
        (match r {
            Some(items) => spec_parse_listing(body@) == Some(items.deep_view()),
            None => spec_parse_listing(body@) is None,
        }),
{
    let i = ws_from(body, 0);
    if i < body.len() && body[i] == LBRACK {
        let j = ws_from(body, i + 1);
        if j < body.len() && body[j] == RBRACK {
            if ws_from(body, j + 1) == body.len() {
                let out: Vec<DufsItem> = Vec::new();
                proof {
                    assert(out.deep_view() =~~= Seq::<EntryV>::empty());
                }
                Some(out)
            } else {
                None
            }
        } else {
            match parse_entries_at(body, j) {
                Some((items, k)) => {
                    if ws_from(body, k) == body.len() {
                        Some(items)
                    } else {
                        None
                    }
                },
                None => None,
            }
        }
    } else {
        None
    }
}

} // verus!

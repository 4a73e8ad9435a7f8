//! Parsing of the OSC 7 directory-report escape sequence: a shell
//! announces its working directory as `ESC ] 7 ; file://<host><path>`,
//! terminated by BEL or the two-character string terminator, with the
//! path percent-encoded.

use vstd::prelude::*;
use vstd::utf8::{decode_utf8, encode_utf8, valid_utf8};

use crate::text::{find_from, first_match, str_to_chars, subvec};

verus! {

/// The numeric value of an ASCII hex digit, if it is one.
pub open spec fn hex_digit_value(b: u8) -> Option<u8> {
    if 48 <= b && b <= 57 {
        Some((b - 48) as u8)
    } else if 65 <= b && b <= 70 {
        Some((b - 55) as u8)
    } else if 97 <= b && b <= 102 {
        Some((b - 87) as u8)
    } else {
        None
    }
}

/// Percent-decoding over bytes: `%` followed by two hex digits becomes
/// one byte; a `%` whose escape is half-formed is kept, with the byte
/// after a lone hex digit consumed alongside it and anything else
/// rescanned; every other byte passes through unchanged.
pub open spec fn spec_pct_decode(s: Seq<u8>) -> Seq<u8>
    decreases s.len(),
{
    if s.len() == 0 {
        Seq::empty()
    } else if s[0] != 37 {
        seq![s[0]] + spec_pct_decode(s.drop_first())
    } else if s.len() >= 3 && hex_digit_value(s[1]).is_some() && hex_digit_value(s[2]).is_some() {
        seq![(hex_digit_value(s[1]).unwrap() * 16 + hex_digit_value(s[2]).unwrap()) as u8]
            + spec_pct_decode(s.skip(3))
    } else if s.len() >= 3 && hex_digit_value(s[1]).is_some() {
        seq![37u8, s[1]] + spec_pct_decode(s.skip(2))
    } else if s.len() >= 2 && hex_digit_value(s[1]).is_none() {
        seq![37u8] + spec_pct_decode(s.skip(1))
    } else {
        seq![37u8] + s.skip(1)
    }
}

/// The tracked path a directory report yields: the percent-decoding of
/// the path's UTF-8 bytes where that decoding is valid UTF-8, and the
/// path as reported otherwise.
pub open spec fn spec_decoded_path(path: Seq<char>) -> Seq<char> {
    let db = spec_pct_decode(encode_utf8(path));
    if valid_utf8(db) {
        decode_utf8(db)
    } else {
        path
    }
}

/// Relies on `urlencoding::decode`: it percent-decodes the string's UTF-8
/// bytes as `spec_pct_decode` writes out, and refuses a decoding that is
/// not valid UTF-8, in which case the input is kept unchanged.
#[verifier::external_body]
fn percent_decode(s: &str) -> (r: String)
    ensures
        r@ == spec_decoded_path(s@),
{
    match urlencoding::decode(s) {
        Ok(d) => d.into_owned(),
        Err(_) => s.to_string(),
    }
}

/// The four characters that open a directory report.
pub open spec fn osc7_prefix() -> Seq<char> {
    seq!['\x1b', ']', '7', ';']
}

/// The BEL terminator.
pub open spec fn bel_terminator() -> Seq<char> {
    seq!['\x07']
}

/// The two-character string terminator.
pub open spec fn st_terminator() -> Seq<char> {
    seq!['\x1b', '\\']
}

/// The URL scheme a directory report carries.
pub open spec fn file_scheme() -> Seq<char> {
    seq!['f', 'i', 'l', 'e', ':', '/', '/']
}

/// The path that the first directory report in `data` announces, if the
/// chunk holds a complete one: the text between the first `ESC ] 7 ;` and
/// its terminator is read as `file://<host><path>`, the host is skipped
/// up to the first `/`, and the path is percent-decoded.
pub open spec fn spec_parse_osc7(data: Seq<char>) -> Option<Seq<char>> {
    match first_match(data, osc7_prefix()) {
        None => None,
        Some(s0) => {
            let after = data.skip(s0 + 4);
            let end = match first_match(after, bel_terminator()) {
                Some(e) => Some(e),
                None => first_match(after, st_terminator()),
            };
            match end {
                None => None,
                Some(e) => {
                    let url = after.take(e);
                    match first_match(url, file_scheme()) {
                        None => None,
                        Some(f) => {
                            let part = url.skip(f + 7);
                            match first_match(part, seq!['/']) {
                                None => None,
                                Some(sl) => Some(spec_decoded_path(part.skip(sl))),
                            }
                        },
                    }
                },
            }
        },
    }
}

/// The characters of `osc7_prefix`.
fn osc7_prefix_vec() -> (v: Vec<char>)
    ensures
        v@ == osc7_prefix(),
{
    let mut v: Vec<char> = Vec::new();
    v.push('\x1b');
    v.push(']');
    v.push('7');
    v.push(';');
    proof {
        assert(v@ =~= osc7_prefix());
    }
    v
}

/// The characters of `bel_terminator`.
fn bel_vec() -> (v: Vec<char>)
    ensures
        v@ == bel_terminator(),
{
    let mut v: Vec<char> = Vec::new();
    v.push('\x07');
    proof {
        assert(v@ =~= bel_terminator());
    }
    v
}

/// The characters of `st_terminator`.
fn st_vec() -> (v: Vec<char>)
    ensures
        v@ == st_terminator(),
{
    let mut v: Vec<char> = Vec::new();
    v.push('\x1b');
    v.push('\\');
    proof {
        assert(v@ =~= st_terminator());
    }
    v
}

/// The characters of `file_scheme`.
fn file_scheme_vec() -> (v: Vec<char>)
    ensures
        v@ == file_scheme(),
{
    let mut v: Vec<char> = Vec::new();
    v.push('f');
    v.push('i');
    v.push('l');
    v.push('e');
    v.push(':');
    v.push('/');
    v.push('/');
    proof {
        assert(v@ =~= file_scheme());
    }
    v
}

/// Scans one chunk of terminal output for a complete directory report and
/// hands back its percent-decoded path.
pub fn parse_osc7_sequence(data: &str) -> (r: Option<String>)
    ensures
        match r {
            Some(p) => spec_parse_osc7(data@) == Some(p@),
            None => spec_parse_osc7(data@).is_none(),
        },
{
    let chars = str_to_chars(data);
    let n = chars.len();
    let prefix = osc7_prefix_vec();
    proof {
        assert(chars@.skip(0) =~= chars@);
    }
    let s0 = match find_from(&chars, &prefix, 0) {
        None => {
            return None;
        },
        Some(i) => i,
    };
    let a0 = s0 + 4;
    let ghost after = data@.skip(a0 as int);
    let bel = bel_vec();
    let st = st_vec();
    let e_abs = match find_from(&chars, &bel, a0) {
        Some(i) => i,
        None => {
            match find_from(&chars, &st, a0) {
                Some(i) => i,
                None => {
                    return None;
                },
            }
        },
    };
    let ghost e = e_abs - a0;
    let url = subvec(&chars, a0, e_abs);
    proof {
        assert(url@ =~= after.take(e));
    }
    let scheme = file_scheme_vec();
    proof {
        assert(url@.skip(0) =~= url@);
    }
    let f = match find_from(&url, &scheme, 0) {
        None => {
            return None;
        },
        Some(i) => i,
    };
    let part_start = a0 + f + 7;
    let part = subvec(&chars, part_start, e_abs);
    proof {
        assert(part@ =~= url@.skip(f + 7));
        assert(part@.skip(0) =~= part@);
    }
    let mut slash: Vec<char> = Vec::new();
    slash.push('/');
    proof {
        assert(slash@ =~= seq!['/']);
    }
    let sl = match find_from(&part, &slash, 0) {
        None => {
            return None;
        },
        Some(i) => i,
    };
    let path_str = data.substring_char(part_start + sl, e_abs);
    proof {
        assert(path_str@ =~= part@.skip(sl as int));
    }
    Some(percent_decode(path_str))
}

} // verus!

//! `application/x-www-form-urlencoded` decoding: percent-escapes, `+` as
//! space, and `key=value&key=value` pair listing.

use vstd::prelude::*;

use crate::bytes::{find_sub, find_subsequence, lemma_find_sub_characterization, split_on,
    split_on_spec};
use crate::text::{chars_to_string, pair_views, str_eq};
use vstd::slice::slice_subrange;
use vstd::string::StringSliceAdditionalSpecFns;

verus! {

/// The value of a hexadecimal digit byte, as `char::to_digit(16)` gives it
/// for the byte read as a character: `0`-`9`, `a`-`f`, `A`-`F`.
pub open spec fn hex_val(b: u8) -> Option<u32> {
    if 48 <= b <= 57 {
        Some((b - 48) as u32)
    } else if 97 <= b <= 102 {
        Some((b - 97 + 10) as u32)
    } else if 65 <= b <= 70 {
        Some((b - 65 + 10) as u32)
    } else {
        None
    }
}

/// The character for the byte with high hex digit `h` and low digit `l`.
pub open spec fn hex_byte_char(h: u32, l: u32) -> char {
    (((h << 4) | l) as u8) as char
}

/// The decoding of percent-encoded bytes: `+` becomes a space; `%XX` with
/// two hex digits becomes the byte `XX` read as a character; a `%` not
/// followed by two hex digits within the input is kept; every other byte
/// is read as a character.
pub open spec fn url_decode_spec(b: Seq<u8>) -> Seq<char>
    decreases b.len(),
{
    if b.len() == 0 {
        Seq::empty()
    } else if b[0] == 43u8 {
        seq![' '] + url_decode_spec(b.skip(1))
    } else if b[0] == 37u8 && b.len() >= 3 {
        match (hex_val(b[1]), hex_val(b[2])) {
            (Some(h), Some(l)) => seq![hex_byte_char(h, l)] + url_decode_spec(b.skip(3)),
            _ => seq!['%'] + url_decode_spec(b.skip(1)),
        }
    } else {
        seq![b[0] as char] + url_decode_spec(b.skip(1))
    }
}

/// The value of a hexadecimal digit byte.
fn hex_digit(b: u8) -> (r: Option<u32>)
    ensures
        r == hex_val(b),
{
    if 48 <= b && b <= 57 {
        Some((b - 48) as u32)
    } else if 97 <= b && b <= 102 {
        Some((b - 97 + 10) as u32)
    } else if 65 <= b && b <= 70 {
        Some((b - 65 + 10) as u32)
    } else {
        None
    }
}

/// Decodes percent-encoded bytes into characters.
fn url_decode_bytes(b: &[u8]) -> (out: Vec<char>)
    ensures
        out@ == url_decode_spec(b@),
{
    let n = b.len();
    let mut out: Vec<char> = Vec::new();
    let mut i: usize = 0;
    proof {
        assert(b@.skip(0) =~= b@);
    }
    while i < n
        invariant
            n == b@.len(),
            i <= n,
            url_decode_spec(b@) == out@ + url_decode_spec(b@.skip(i as int)),
        decreases n - i,
    {
        let ghost rest = b@.skip(i as int);
        let c = b[i];
        if c == 43 {
            out.push(' ');
            proof {
                assert(rest.skip(1) =~= b@.skip(i as int + 1));
            }
            i += 1;
        } else if c == 37 && n - i > 2 {
            let hi = hex_digit(b[i + 1]);
            let lo = hex_digit(b[i + 2]);
            proof {
                assert(rest[1] == b@[i as int + 1]);
                assert(rest[2] == b@[i as int + 2]);
            }
            match (hi, lo) {
                (Some(h), Some(l)) => {
                    let byte: u8 = #[verifier::truncate] (((h << 4) | l) as u8);
                    out.push(byte as char);
                    proof {
                        assert(rest.skip(3) =~= b@.skip(i as int + 3));
                    }
                    i += 3;
                },
                _ => {
                    out.push('%');
                    proof {
                        assert(rest.skip(1) =~= b@.skip(i as int + 1));
                    }
                    i += 1;
                },
            }
        } else {
            out.push(c as char);
            proof {
                assert(rest.skip(1) =~= b@.skip(i as int + 1));
            }
            i += 1;
        }
    }
    proof {
        assert(b@.skip(n as int) =~= Seq::<u8>::empty());
    }
    out
}

/// Decodes a percent-encoded string (`%XX`) and converts `+` to space.
pub fn url_decode(s: &str) -> (r: String)
    ensures
        r@ == url_decode_spec(s.spec_bytes()),
{
    let out = url_decode_bytes(s.as_bytes());
    chars_to_string(&out)
}

/// The decoded `(key, value)` of one `key=value` piece: the part before
/// the first `=` and the part after it, each percent-decoded; a piece
/// without `=` is a key with an empty value.
pub open spec fn pair_of_piece(p: Seq<u8>) -> (Seq<char>, Seq<char>) {
    match find_sub(p, seq![61u8]) {
        Some(i) => (url_decode_spec(p.take(i)), url_decode_spec(p.skip(i + 1))),
        None => (url_decode_spec(p), Seq::empty()),
    }
}

/// The decoded pairs of a form body: one per `&`-separated piece.
pub open spec fn form_pairs_spec(body: Seq<u8>) -> Seq<(Seq<char>, Seq<char>)> {
    split_on_spec(body, seq![38u8]).map_values(|p: Seq<u8>| pair_of_piece(p))
}

/// Parses `key=value&key2=value2` into a list of decoded `(key, value)`
/// pairs, one per `&`-separated piece, in order.
pub fn parse_form(body: &str) -> (r: Vec<(String, String)>)
    ensures
        pair_views(r@) == form_pairs_spec(body.spec_bytes()),
{
    let bytes = body.as_bytes();
    let mut amp: Vec<u8> = Vec::new();
    amp.push(38);
    proof {
        assert(amp@ =~= seq![38u8]);
    }
    let mut eq: Vec<u8> = Vec::new();
    eq.push(61);
    proof {
        assert(eq@ =~= seq![61u8]);
    }
    let pieces = split_on(bytes, amp.as_slice());
    let ghost all = split_on_spec(body.spec_bytes(), seq![38u8]);
    let ghost goal = form_pairs_spec(body.spec_bytes());
    let mut result: Vec<(String, String)> = Vec::new();
    let mut idx: usize = 0;
    proof {
        assert(pair_views(result@) =~= goal.take(0));
    }
    while idx < pieces.len()
        invariant
            pieces.deep_view() == all,
            all == split_on_spec(body.spec_bytes(), seq![38u8]),
            goal == form_pairs_spec(body.spec_bytes()),
            idx <= pieces@.len(),
            eq@ == seq![61u8],
            pair_views(result@) == goal.take(idx as int),
        decreases pieces@.len() - idx,
    {
        let piece = pieces[idx];
        proof {
            assert(piece@ =~= all[idx as int]);
            assert(goal[idx as int] == pair_of_piece(piece@));
        }
        let ghost old_pairs = pair_views(result@);
        let plen = piece.len();
        let (k, v) = match find_subsequence(piece, eq.as_slice()) {
            Some(pos) => {
                proof {
                    lemma_find_sub_characterization(piece@, seq![61u8]);
                }
                let kb = slice_subrange(piece, 0, pos);
                let vb = slice_subrange(piece, pos + 1, plen);
                proof {
                    assert(kb@ =~= piece@.take(pos as int));
                    assert(vb@ =~= piece@.skip(pos as int + 1));
                }
                (url_decode_bytes(kb), url_decode_bytes(vb))
            },
            None => {
                let kb = url_decode_bytes(piece);
                (kb, Vec::new())
            },
        };
        let ks = chars_to_string(&k);
        let vs = chars_to_string(&v);
        result.push((ks, vs));
        proof {
            assert(pair_views(result@) =~= old_pairs + seq![(ks@, vs@)]);
            assert(goal.take(idx as int + 1) =~= goal.take(idx as int) + seq![
                goal[idx as int],
            ]);
        }
        idx += 1;
    }
    proof {
        assert(goal.take(all.len() as int) =~= goal);
    }
    result
}

/// The first value in `pairs` whose key is `key`, if any.
pub open spec fn form_lookup(pairs: Seq<(String, String)>, key: Seq<char>) -> Option<Seq<char>>
    decreases pairs.len(),
{
    if pairs.len() == 0 {
        None
    } else if pairs[0].0@ == key {
        Some(pairs[0].1@)
    } else {
        form_lookup(pairs.skip(1), key)
    }
}

/// Skipping pairs whose key differs does not change the lookup.
pub(crate) proof fn lemma_form_lookup_skip(pairs: Seq<(String, String)>, key: Seq<char>, k: int)
    requires
        0 <= k <= pairs.len(),
        forall|j: int| 0 <= j < k ==> (#[trigger] pairs[j]).0@ != key,
    ensures
        form_lookup(pairs, key) == form_lookup(pairs.skip(k), key),
    decreases k,
{
    if k > 0 {
        assert(pairs[0].0@ != key);
        assert forall|j: int| 0 <= j < k - 1 implies (#[trigger] pairs.skip(1)[j]).0@ != key by {
            assert(pairs.skip(1)[j] == pairs[j + 1]);
        }
        lemma_form_lookup_skip(pairs.skip(1), key, k - 1);
        assert(pairs.skip(1).skip(k - 1) =~= pairs.skip(k));
    } else {
        assert(pairs.skip(0) =~= pairs);
    }
}

/// Looks up a key in parsed form pairs, returning the value of the first
/// pair carrying it.
pub fn form_get<'a>(pairs: &'a [(String, String)], key: &str) -> (r: Option<&'a str>)
    ensures
        match r {
            Some(v) => form_lookup(pairs@, key@) == Some(v@),
            None => form_lookup(pairs@, key@) is None,
        },
{
    let n = pairs.len();
    let mut i: usize = 0;
    while i < n
        invariant
            n == pairs@.len(),
            i <= n,
            forall|j: int| 0 <= j < i ==> (#[trigger] pairs@[j]).0@ != key@,
        decreases n - i,
    {
        let pair = &pairs[i];
        if str_eq(pair.0.as_str(), key) {
            proof {
                lemma_form_lookup_skip(pairs@, key@, i as int);
                assert(pairs@.skip(i as int)[0] == pairs@[i as int]);
            }
            return Some(pair.1.as_str());
        }
        i += 1;
    }
    proof {
        lemma_form_lookup_skip(pairs@, key@, n as int);
        assert(pairs@.skip(n as int) =~= Seq::<(String, String)>::empty());
    }
    None
}

} // verus!

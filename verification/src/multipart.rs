//! `multipart/form-data` body parsing: file and text-field extraction.
//!
//! A body is split on `--<boundary>`; each piece holds a header section,
//! then `\r\n\r\n`, then the data, with a trailing `\r\n` stripped. All
//! matching is on the raw bytes; field names and text values are decoded
//! as UTF-8 only at the edge.

use vstd::prelude::*;

use crate::bytes::{find_sub, find_subsequence, lemma_find_sub_characterization, split_on,
    split_on_spec};
use crate::text::{bytes_to_string, pair_views};
use vstd::slice::{slice_subrange, slice_to_vec};
use vstd::string::StringSliceAdditionalSpecFns;
use vstd::utf8::{decode_utf8, valid_utf8};

verus! {

/// The bytes of `--<boundary>`, the delimiter between parts.
pub open spec fn delimiter_spec(boundary: &str) -> Seq<u8> {
    seq![45u8, 45u8] + boundary.spec_bytes()
}

/// The bytes of `\r\n\r\n`, separating a part's headers from its data.
pub open spec fn header_separator() -> Seq<u8> {
    seq![13u8, 10u8, 13u8, 10u8]
}

/// The bytes of `filename`.
pub open spec fn filename_token() -> Seq<u8> {
    seq![102u8, 105u8, 108u8, 101u8, 110u8, 97u8, 109u8, 101u8]
}

/// The bytes of `filename=`.
pub open spec fn filename_eq_token() -> Seq<u8> {
    filename_token() + seq![61u8]
}

/// The bytes of `filename="`.
pub open spec fn filename_quote_key() -> Seq<u8> {
    filename_eq_token() + seq![34u8]
}

/// The bytes of `name="`.
pub open spec fn name_quote_key() -> Seq<u8> {
    seq![110u8, 97u8, 109u8, 101u8, 61u8, 34u8]
}

/// The bytes of `name="<field>"`.
pub open spec fn name_attr_pattern(field: Seq<u8>) -> Seq<u8> {
    name_quote_key() + field + seq![34u8]
}

/// ASCII upper-case letters mapped to lower case; all else unchanged.
pub open spec fn ascii_lower(b: u8) -> u8 {
    if 65 <= b <= 90 {
        (b + 32) as u8
    } else {
        b
    }
}

/// `s` with every byte lower-cased.
pub open spec fn lower_seq(s: Seq<u8>) -> Seq<u8> {
    s.map_values(|b: u8| ascii_lower(b))
}

/// Whether `filename` occurs in `h`, ignoring ASCII case.
pub open spec fn has_filename_nocase(h: Seq<u8>) -> bool {
    exists|i: int|
        0 <= i && i + 8 <= h.len() && #[trigger] lower_seq(h.subrange(i, i + 8))
            == filename_token()
}

/// Whether `pattern` occurs in `h`.
pub open spec fn contains_bytes(h: Seq<u8>, pattern: Seq<u8>) -> bool {
    find_sub(h, pattern) is Some
}

/// `d` with one trailing `\r\n` removed, if present.
pub open spec fn strip_trailing_crlf(d: Seq<u8>) -> Seq<u8> {
    if d.len() >= 2 && d[d.len() - 2] == 13u8 && d[d.len() - 1] == 10u8 {
        d.take(d.len() - 2)
    } else {
        d
    }
}

/// The header section of a part, if the part has one.
pub open spec fn part_headers(p: Seq<u8>) -> Option<Seq<u8>> {
    match find_sub(p, header_separator()) {
        Some(i) => Some(p.take(i)),
        None => None,
    }
}

/// The data of a part, after the header separator, with one trailing
/// `\r\n` stripped. Empty when the part has no header separator.
pub open spec fn part_data(p: Seq<u8>) -> Seq<u8> {
    match find_sub(p, header_separator()) {
        Some(i) => strip_trailing_crlf(p.skip(i + 4)),
        None => Seq::empty(),
    }
}

/// The value drawn from the first part satisfying `pred`, if any.
pub open spec fn first_part_value(
    parts: Seq<Seq<u8>>,
    pred: spec_fn(Seq<u8>) -> bool,
    value: spec_fn(Seq<u8>) -> Seq<u8>,
) -> Option<Seq<u8>>
    decreases parts.len(),
{
    if parts.len() == 0 {
        None
    } else if pred(parts[0]) {
        Some(value(parts[0]))
    } else {
        first_part_value(parts.skip(1), pred, value)
    }
}

/// Skipping parts that fail `pred` does not change the first match.
proof fn lemma_first_part_value_skip(
    parts: Seq<Seq<u8>>,
    pred: spec_fn(Seq<u8>) -> bool,
    value: spec_fn(Seq<u8>) -> Seq<u8>,
    k: int,
)
    requires
        0 <= k <= parts.len(),
        forall|j: int| 0 <= j < k ==> !#[trigger] pred(parts[j]),
    ensures
        first_part_value(parts, pred, value) == first_part_value(parts.skip(k), pred, value),
    decreases k,
{
    if k > 0 {
        assert(!pred(parts[0]));
        assert forall|j: int| 0 <= j < k - 1 implies !#[trigger] pred(parts.skip(1)[j]) by {
            assert(parts.skip(1)[j] == parts[j + 1]);
        }
        lemma_first_part_value_skip(parts.skip(1), pred, value, k - 1);
        assert(parts.skip(1).skip(k - 1) =~= parts.skip(k));
    } else {
        assert(parts.skip(0) =~= parts);
    }
}

/// Lower-cases one byte of ASCII.
fn ascii_lower_byte(b: u8) -> (r: u8)
    ensures
        r == ascii_lower(b),
{
    if b >= 65 && b <= 90 {
        b + 32
    } else {
        b
    }
}

/// Whether the 8 bytes of `h` starting at `i`, lower-cased, read `filename`.
fn filename_window_at(h: &[u8], i: usize) -> (b: bool)
    requires
        i + 8 <= h@.len(),
    ensures
        b == (lower_seq(h@.subrange(i as int, i as int + 8)) == filename_token()),
{
    let m = ascii_lower_byte(h[i]) == 102 && ascii_lower_byte(h[i + 1]) == 105
        && ascii_lower_byte(h[i + 2]) == 108 && ascii_lower_byte(h[i + 3]) == 101
        && ascii_lower_byte(h[i + 4]) == 110 && ascii_lower_byte(h[i + 5]) == 97
        && ascii_lower_byte(h[i + 6]) == 109 && ascii_lower_byte(h[i + 7]) == 101;
    proof {
        let w = h@.subrange(i as int, i as int + 8);
        assert(w[0] == h@[i as int]);
        assert(w[1] == h@[i as int + 1]);
        assert(w[2] == h@[i as int + 2]);
        assert(w[3] == h@[i as int + 3]);
        assert(w[4] == h@[i as int + 4]);
        assert(w[5] == h@[i as int + 5]);
        assert(w[6] == h@[i as int + 6]);
        assert(w[7] == h@[i as int + 7]);
        if m {
            assert(lower_seq(w) =~= filename_token());
        } else {
            if lower_seq(w) == filename_token() {
                assert(ascii_lower(w[0]) == lower_seq(w)[0]);
                assert(ascii_lower(w[1]) == lower_seq(w)[1]);
                assert(ascii_lower(w[2]) == lower_seq(w)[2]);
                assert(ascii_lower(w[3]) == lower_seq(w)[3]);
                assert(ascii_lower(w[4]) == lower_seq(w)[4]);
                assert(ascii_lower(w[5]) == lower_seq(w)[5]);
                assert(ascii_lower(w[6]) == lower_seq(w)[6]);
                assert(ascii_lower(w[7]) == lower_seq(w)[7]);
                assert(false);
            }
        }
    }
    m
}

/// Whether `h` contains `filename`, ignoring ASCII case.
fn has_filename_token(h: &[u8]) -> (b: bool)
    ensures
        b == has_filename_nocase(h@),
{
    let n = h.len();
    if n < 8 {
        return false;
    }
    let mut i: usize = 0;
    while i <= n - 8
        invariant
            n == h@.len(),
            8 <= n,
            i <= n - 8 + 1,
            forall|j: int|
                0 <= j < i ==> #[trigger] lower_seq(h@.subrange(j, j + 8)) != filename_token(),
        decreases n - i,
    {
        if filename_window_at(h, i) {
            return true;
        }
        i += 1;
    }
    false
}

/// Builds `--<boundary>` as bytes.
fn make_delimiter(boundary: &str) -> (v: Vec<u8>)
    ensures
        v@ == delimiter_spec(boundary),
        v@.len() >= 2,
{
    let mut v: Vec<u8> = Vec::new();
    v.push(45);
    v.push(45);
    let b = boundary.as_bytes();
    let mut i: usize = 0;
    while i < b.len()
        invariant
            b@ == boundary.spec_bytes(),
            i <= b@.len(),
            v@ == seq![45u8, 45u8] + b@.take(i as int),
        decreases b@.len() - i,
    {
        v.push(b[i]);
        i += 1;
    }
    proof {
        assert(b@.take(b@.len() as int) =~= b@);
    }
    v
}

/// Builds the four header-separator bytes `\r\n\r\n`.
fn make_header_separator() -> (v: Vec<u8>)
    ensures
        v@ == header_separator(),
{
    let mut v: Vec<u8> = Vec::new();
    v.push(13);
    v.push(10);
    v.push(13);
    v.push(10);
    proof {
        assert(v@ =~= header_separator());
    }
    v
}

/// Copies a part's data section, stripping one trailing `\r\n`.
fn copy_part_data(part: &[u8], sp: usize) -> (v: Vec<u8>)
    requires
        find_sub(part@, header_separator()) == Some(sp as int),
    ensures
        v@ == part_data(part@),
{
    proof {
        lemma_find_sub_characterization(part@, header_separator());
    }
    let plen = part.len();
    let raw = slice_subrange(part, sp + 4, plen);
    proof {
        assert(raw@ =~= part@.skip(sp + 4));
    }
    let n = raw.len();
    if n >= 2 && raw[n - 2] == 13 && raw[n - 1] == 10 {
        let out = slice_to_vec(slice_subrange(raw, 0, n - 2));
        proof {
            assert(out@ =~= part@.skip(sp + 4).take(part@.skip(sp + 4).len() - 2));
        }
        out
    } else {
        slice_to_vec(raw)
    }
}

/// Whether the part is a file part: it has headers that name a `filename`,
/// in any ASCII case.
pub open spec fn is_file_part(p: Seq<u8>) -> bool {
    match part_headers(p) {
        Some(h) => has_filename_nocase(h),
        None => false,
    }
}

/// What `multipart_extract_file` returns: the data of the first file part.
pub open spec fn file_payload_spec(body: Seq<u8>, boundary: &str) -> Option<Seq<u8>> {
    first_part_value(
        split_on_spec(body, delimiter_spec(boundary)),
        |p: Seq<u8>| is_file_part(p),
        |p: Seq<u8>| part_data(p),
    )
}

/// Extracts the raw bytes of the first file part from a multipart body:
/// the first part whose headers mention `filename` (any ASCII case).
pub fn multipart_extract_file(body: &[u8], boundary: &str) -> (r: Option<Vec<u8>>)
    ensures
        match r {
            Some(v) => file_payload_spec(body@, boundary) == Some(v@),
            None => file_payload_spec(body@, boundary) is None,
        },
{
    let ghost pred = |p: Seq<u8>| is_file_part(p);
    let ghost value = |p: Seq<u8>| part_data(p);
    let delim = make_delimiter(boundary);
    let sep = make_header_separator();
    let parts = split_on(body, delim.as_slice());
    let ghost all = split_on_spec(body@, delimiter_spec(boundary));
    let mut idx: usize = 0;
    while idx < parts.len()
        invariant
            parts.deep_view() == all,
            all == split_on_spec(body@, delimiter_spec(boundary)),
            idx <= parts@.len(),
            sep@ == header_separator(),
            pred == (|p: Seq<u8>| is_file_part(p)),
            value == (|p: Seq<u8>| part_data(p)),
            forall|j: int| 0 <= j < idx ==> !#[trigger] pred(all[j]),
        decreases parts@.len() - idx,
    {
        let part = parts[idx];
        proof {
            assert(part@ =~= all[idx as int]);
        }
        match find_subsequence(part, sep.as_slice()) {
            Some(sp) => {
                proof {
                    lemma_find_sub_characterization(part@, header_separator());
                }
                let headers = slice_subrange(part, 0, sp);
                proof {
                    assert(headers@ =~= part@.take(sp as int));
                }
                if has_filename_token(headers) {
                    let data = copy_part_data(part, sp);
                    proof {
                        lemma_first_part_value_skip(all, pred, value, idx as int);
                        assert(all.skip(idx as int)[0] == all[idx as int]);
                        assert(pred(all[idx as int]) == is_file_part(part@));
                        assert(value(all[idx as int]) == part_data(part@));
                        assert(first_part_value(all.skip(idx as int), pred, value) == Some(
                            part_data(part@),
                        ));
                    }
                    return Some(data);
                }
            },
            None => {},
        }
        proof {
            assert(pred(all[idx as int]) == is_file_part(part@));
        }
        idx += 1;
    }
    proof {
        lemma_first_part_value_skip(all, pred, value, all.len() as int);
        assert(all.skip(all.len() as int) =~= Seq::<Seq<u8>>::empty());
    }
    None
}

/// Builds the bytes of `filename=`.
fn make_filename_eq() -> (v: Vec<u8>)
    ensures
        v@ == filename_eq_token(),
{
    let mut v: Vec<u8> = Vec::new();
    v.push(102);
    v.push(105);
    v.push(108);
    v.push(101);
    v.push(110);
    v.push(97);
    v.push(109);
    v.push(101);
    v.push(61);
    proof {
        assert(v@ =~= filename_eq_token());
    }
    v
}

/// Builds the bytes of `filename="`.
fn make_filename_quote() -> (v: Vec<u8>)
    ensures
        v@ == filename_quote_key(),
{
    let mut v = make_filename_eq();
    v.push(34);
    proof {
        assert(v@ =~= filename_quote_key());
    }
    v
}

/// Builds the bytes of `name="<field>"`.
fn make_name_pattern(field: &str) -> (v: Vec<u8>)
    ensures
        v@ == name_attr_pattern(field.spec_bytes()),
{
    let mut v: Vec<u8> = Vec::new();
    v.push(110);
    v.push(97);
    v.push(109);
    v.push(101);
    v.push(61);
    v.push(34);
    let b = field.as_bytes();
    let mut i: usize = 0;
    while i < b.len()
        invariant
            b@ == field.spec_bytes(),
            i <= b@.len(),
            v@ == name_quote_key() + b@.take(i as int),
        decreases b@.len() - i,
    {
        v.push(b[i]);
        i += 1;
    }
    v.push(34);
    proof {
        assert(b@.take(b@.len() as int) =~= b@);
        assert(v@ =~= name_attr_pattern(field.spec_bytes()));
    }
    v
}

/// Whether `pattern` occurs in `h`.
fn contains_pattern(h: &[u8], pattern: &[u8]) -> (b: bool)
    ensures
        b == contains_bytes(h@, pattern@),
{
    match find_subsequence(h, pattern) {
        Some(_) => true,
        None => false,
    }
}

/// Whether the part is the text field called `field`: its headers carry
/// `name="<field>"` and no `filename=`.
pub open spec fn is_text_field_part(p: Seq<u8>, field: Seq<u8>) -> bool {
    match part_headers(p) {
        Some(h) => contains_bytes(h, name_attr_pattern(field)) && !contains_bytes(
            h,
            filename_eq_token(),
        ),
        None => false,
    }
}

/// What `extract_text_field` decodes: the data of the first part that is
/// the text field called `field`.
pub open spec fn text_field_payload_spec(body: Seq<u8>, boundary: &str, field: Seq<u8>) -> Option<
    Seq<u8>,
> {
    first_part_value(
        split_on_spec(body, delimiter_spec(boundary)),
        |p: Seq<u8>| is_text_field_part(p, field),
        |p: Seq<u8>| part_data(p),
    )
}

/// Extracts a plain-text (non-file) field from a multipart body.
pub fn extract_text_field(body: &[u8], boundary: &str, field_name: &str) -> (r: Option<String>)
    ensures
        match text_field_payload_spec(body@, boundary, field_name.spec_bytes()) {
            Some(d) => match r {
                Some(s) => valid_utf8(d) && s@ == decode_utf8(d),
                None => !valid_utf8(d),
            },
            None => r is None,
        },
{
    let ghost field = field_name.spec_bytes();
    let ghost pred = |p: Seq<u8>| is_text_field_part(p, field);
    let ghost value = |p: Seq<u8>| part_data(p);
    let delim = make_delimiter(boundary);
    let sep = make_header_separator();
    let name_pat = make_name_pattern(field_name);
    let file_pat = make_filename_eq();
    let parts = split_on(body, delim.as_slice());
    let ghost all = split_on_spec(body@, delimiter_spec(boundary));
    let mut idx: usize = 0;
    while idx < parts.len()
        invariant
            parts.deep_view() == all,
            all == split_on_spec(body@, delimiter_spec(boundary)),
            idx <= parts@.len(),
            sep@ == header_separator(),
            name_pat@ == name_attr_pattern(field),
            file_pat@ == filename_eq_token(),
            field == field_name.spec_bytes(),
            pred == (|p: Seq<u8>| is_text_field_part(p, field)),
            value == (|p: Seq<u8>| part_data(p)),
            forall|j: int| 0 <= j < idx ==> !#[trigger] pred(all[j]),
        decreases parts@.len() - idx,
    {
        let part = parts[idx];
        proof {
            assert(part@ =~= all[idx as int]);
        }
        match find_subsequence(part, sep.as_slice()) {
            Some(sp) => {
                proof {
                    lemma_find_sub_characterization(part@, header_separator());
                }
                let headers = slice_subrange(part, 0, sp);
                proof {
                    assert(headers@ =~= part@.take(sp as int));
                }
                if contains_pattern(headers, name_pat.as_slice()) && !contains_pattern(
                    headers,
                    file_pat.as_slice(),
                ) {
                    let data = copy_part_data(part, sp);
                    proof {
                        lemma_first_part_value_skip(all, pred, value, idx as int);
                        assert(all.skip(idx as int)[0] == all[idx as int]);
                        assert(pred(all[idx as int]) == is_text_field_part(part@, field));
                        assert(value(all[idx as int]) == part_data(part@));
                        assert(first_part_value(all.skip(idx as int), pred, value) == Some(
                            part_data(part@),
                        ));
                    }
                    return bytes_to_string(data);
                }
            },
            None => {},
        }
        proof {
            assert(pred(all[idx as int]) == is_text_field_part(part@, field));
        }
        idx += 1;
    }
    proof {
        lemma_first_part_value_skip(all, pred, value, all.len() as int);
        assert(all.skip(all.len() as int) =~= Seq::<Seq<u8>>::empty());
    }
    None
}

/// Whether the part is the file field called `field`: its headers carry
/// both `name="<field>"` and `filename=`.
pub open spec fn is_named_file_part(p: Seq<u8>, field: Seq<u8>) -> bool {
    match part_headers(p) {
        Some(h) => contains_bytes(h, name_attr_pattern(field)) && contains_bytes(
            h,
            filename_eq_token(),
        ),
        None => false,
    }
}

/// What `multipart_extract_file_by_name` returns: the data of the first
/// file part whose field name is `field`.
pub open spec fn named_file_payload_spec(body: Seq<u8>, boundary: &str, field: Seq<u8>) -> Option<
    Seq<u8>,
> {
    first_part_value(
        split_on_spec(body, delimiter_spec(boundary)),
        |p: Seq<u8>| is_named_file_part(p, field),
        |p: Seq<u8>| part_data(p),
    )
}

/// Extracts the raw bytes of the named file part from a multipart body.
pub fn multipart_extract_file_by_name(body: &[u8], boundary: &str, field_name: &str) -> (r: Option<
    Vec<u8>,
>)
    ensures
        match r {
            Some(v) => named_file_payload_spec(body@, boundary, field_name.spec_bytes()) == Some(
                v@,
            ),
            None => named_file_payload_spec(body@, boundary, field_name.spec_bytes()) is None,
        },
{
    let ghost field = field_name.spec_bytes();
    let ghost pred = |p: Seq<u8>| is_named_file_part(p, field);
    let ghost value = |p: Seq<u8>| part_data(p);
    let delim = make_delimiter(boundary);
    let sep = make_header_separator();
    let name_pat = make_name_pattern(field_name);
    let file_pat = make_filename_eq();
    let parts = split_on(body, delim.as_slice());
    let ghost all = split_on_spec(body@, delimiter_spec(boundary));
    let mut idx: usize = 0;
    while idx < parts.len()
        invariant
            parts.deep_view() == all,
            all == split_on_spec(body@, delimiter_spec(boundary)),
            idx <= parts@.len(),
            sep@ == header_separator(),
            name_pat@ == name_attr_pattern(field),
            file_pat@ == filename_eq_token(),
            field == field_name.spec_bytes(),
            pred == (|p: Seq<u8>| is_named_file_part(p, field)),
            value == (|p: Seq<u8>| part_data(p)),
            forall|j: int| 0 <= j < idx ==> !#[trigger] pred(all[j]),
        decreases parts@.len() - idx,
    {
        let part = parts[idx];
        proof {
            assert(part@ =~= all[idx as int]);
        }
        match find_subsequence(part, sep.as_slice()) {
            Some(sp) => {
                proof {
                    lemma_find_sub_characterization(part@, header_separator());
                }
                let headers = slice_subrange(part, 0, sp);
                proof {
                    assert(headers@ =~= part@.take(sp as int));
                }
                if contains_pattern(headers, name_pat.as_slice()) && contains_pattern(
                    headers,
                    file_pat.as_slice(),
                ) {
                    let data = copy_part_data(part, sp);
                    proof {
                        lemma_first_part_value_skip(all, pred, value, idx as int);
                        assert(all.skip(idx as int)[0] == all[idx as int]);
                        assert(pred(all[idx as int]) == is_named_file_part(part@, field));
                        assert(value(all[idx as int]) == part_data(part@));
                        assert(first_part_value(all.skip(idx as int), pred, value) == Some(
                            part_data(part@),
                        ));
                    }
                    return Some(data);
                }
            },
            None => {},
        }
        proof {
            assert(pred(all[idx as int]) == is_named_file_part(part@, field));
        }
        idx += 1;
    }
    proof {
        lemma_first_part_value_skip(all, pred, value, all.len() as int);
        assert(all.skip(all.len() as int) =~= Seq::<Seq<u8>>::empty());
    }
    None
}

/// ASCII whitespace, the set the studio's header fields are trimmed by.
pub open spec fn ascii_space(b: u8) -> bool {
    b == 32 || b == 9 || b == 10 || b == 13 || b == 11 || b == 12
}

/// `s` with leading ASCII whitespace removed.
pub open spec fn trim_front(s: Seq<u8>) -> Seq<u8>
    decreases s.len(),
{
    if s.len() > 0 && ascii_space(s[0]) {
        trim_front(s.skip(1))
    } else {
        s
    }
}

/// `s` with trailing ASCII whitespace removed.
pub open spec fn trim_back(s: Seq<u8>) -> Seq<u8>
    decreases s.len(),
{
    if s.len() > 0 && ascii_space(s[s.len() - 1]) {
        trim_back(s.take(s.len() - 1))
    } else {
        s
    }
}

/// `s` with whitespace removed on both ends.
pub open spec fn trim_bytes(s: Seq<u8>) -> Seq<u8> {
    trim_back(trim_front(s))
}

/// `s` with leading `"` characters removed.
pub open spec fn quote_trim_front(s: Seq<u8>) -> Seq<u8>
    decreases s.len(),
{
    if s.len() > 0 && s[0] == 34u8 {
        quote_trim_front(s.skip(1))
    } else {
        s
    }
}

/// `s` with trailing `"` characters removed.
pub open spec fn quote_trim_back(s: Seq<u8>) -> Seq<u8>
    decreases s.len(),
{
    if s.len() > 0 && s[s.len() - 1] == 34u8 {
        quote_trim_back(s.take(s.len() - 1))
    } else {
        s
    }
}

/// `s` with `"` characters removed on both ends.
pub open spec fn trim_quotes(s: Seq<u8>) -> Seq<u8> {
    quote_trim_back(quote_trim_front(s))
}

/// The bytes of `boundary=`.
pub open spec fn boundary_key() -> Seq<u8> {
    seq![98u8, 111u8, 117u8, 110u8, 100u8, 97u8, 114u8, 121u8, 61u8]
}

/// The boundary token a `;`-separated piece of a Content-Type header
/// declares, if it does: the trimmed piece must start with `boundary=`;
/// the token follows, with surrounding `"` stripped.
pub open spec fn piece_boundary(p: Seq<u8>) -> Option<Seq<u8>> {
    let t = trim_bytes(p);
    if t.len() >= 9 && t.take(9) == boundary_key() {
        Some(trim_quotes(t.skip(9)))
    } else {
        None
    }
}

/// The first `Some` that `f` draws from `pieces`, if any.
pub open spec fn first_some_value(
    pieces: Seq<Seq<u8>>,
    f: spec_fn(Seq<u8>) -> Option<Seq<u8>>,
) -> Option<Seq<u8>>
    decreases pieces.len(),
{
    if pieces.len() == 0 {
        None
    } else if f(pieces[0]) is Some {
        f(pieces[0])
    } else {
        first_some_value(pieces.skip(1), f)
    }
}

/// Skipping pieces on which `f` is `None` does not change the result.
proof fn lemma_first_some_value_skip(
    pieces: Seq<Seq<u8>>,
    f: spec_fn(Seq<u8>) -> Option<Seq<u8>>,
    k: int,
)
    requires
        0 <= k <= pieces.len(),
        forall|j: int| 0 <= j < k ==> #[trigger] f(pieces[j]) is None,
    ensures
        first_some_value(pieces, f) == first_some_value(pieces.skip(k), f),
    decreases k,
{
    if k > 0 {
        assert(f(pieces[0]) is None);
        assert forall|j: int| 0 <= j < k - 1 implies #[trigger] f(pieces.skip(1)[j]) is None by {
            assert(pieces.skip(1)[j] == pieces[j + 1]);
        }
        lemma_first_some_value_skip(pieces.skip(1), f, k - 1);
        assert(pieces.skip(1).skip(k - 1) =~= pieces.skip(k));
    } else {
        assert(pieces.skip(0) =~= pieces);
    }
}

/// The boundary token of a Content-Type header: the first `;`-separated
/// piece that declares one.
pub open spec fn extract_boundary_spec(content_type: &str) -> Option<Seq<u8>> {
    first_some_value(
        split_on_spec(content_type.spec_bytes(), seq![59u8]),
        |p: Seq<u8>| piece_boundary(p),
    )
}

/// The bounds of `p` with ASCII whitespace trimmed from both ends.
fn trim_bounds(p: &[u8]) -> (r: (usize, usize))
    ensures
        r.0 <= r.1 <= p@.len(),
        p@.subrange(r.0 as int, r.1 as int) == trim_bytes(p@),
{
    let n = p.len();
    let mut a: usize = 0;
    proof {
        assert(p@.skip(0) =~= p@);
    }
    while a < n && (p[a] == 32 || p[a] == 9 || p[a] == 10 || p[a] == 13 || p[a] == 11 || p[a]
        == 12)
        invariant
            n == p@.len(),
            a <= n,
            trim_front(p@) == trim_front(p@.skip(a as int)),
        decreases n - a,
    {
        proof {
            assert(p@.skip(a as int).skip(1) =~= p@.skip(a as int + 1));
        }
        a += 1;
    }
    proof {
        if a == n {
            assert(p@.skip(a as int) =~= Seq::<u8>::empty());
        }
        assert(trim_front(p@) == p@.skip(a as int));
    }
    let ghost t = p@.skip(a as int);
    let mut b: usize = n;
    proof {
        assert(t.take(n - a) =~= t);
    }
    while b > a && (p[b - 1] == 32 || p[b - 1] == 9 || p[b - 1] == 10 || p[b - 1] == 13 || p[b
        - 1] == 11 || p[b - 1] == 12)
        invariant
            n == p@.len(),
            a <= b <= n,
            t == p@.skip(a as int),
            trim_back(t) == trim_back(t.take(b - a)),
        decreases b,
    {
        proof {
            assert(t.take(b - a)[b - a - 1] == p@[b - 1]);
            assert(t.take(b - a).take(b - a - 1) =~= t.take(b - 1 - a));
        }
        b -= 1;
    }
    proof {
        if b == a {
            assert(t.take(0) =~= Seq::<u8>::empty());
        } else {
            assert(t.take(b - a)[b - a - 1] == p@[b - 1]);
        }
        assert(trim_back(t) == t.take(b - a));
        assert(p@.subrange(a as int, b as int) =~= t.take(b - a));
    }
    (a, b)
}

/// The bounds of `p`, within `[lo, hi)`, with `"` trimmed from both ends.
fn quote_trim_bounds(p: &[u8], lo: usize, hi: usize) -> (r: (usize, usize))
    requires
        lo <= hi <= p@.len(),
    ensures
        lo <= r.0 <= r.1 <= hi,
        p@.subrange(r.0 as int, r.1 as int) == trim_quotes(p@.subrange(lo as int, hi as int)),
{
    let ghost s = p@.subrange(lo as int, hi as int);
    let mut a: usize = lo;
    proof {
        assert(s.skip(0) =~= s);
    }
    while a < hi && p[a] == 34
        invariant
            lo <= a <= hi <= p@.len(),
            s == p@.subrange(lo as int, hi as int),
            quote_trim_front(s) == quote_trim_front(s.skip(a - lo)),
        decreases hi - a,
    {
        proof {
            assert(s.skip(a - lo)[0] == p@[a as int]);
            assert(s.skip(a - lo).skip(1) =~= s.skip(a + 1 - lo));
        }
        a += 1;
    }
    proof {
        if a == hi {
            assert(s.skip(a - lo) =~= Seq::<u8>::empty());
        } else {
            assert(s.skip(a - lo)[0] == p@[a as int]);
        }
        assert(quote_trim_front(s) == s.skip(a - lo));
    }
    let ghost t = s.skip(a - lo);
    let mut b: usize = hi;
    proof {
        assert(t.take(hi - a) =~= t);
    }
    while b > a && p[b - 1] == 34
        invariant
            lo <= a <= b <= hi <= p@.len(),
            s == p@.subrange(lo as int, hi as int),
            t == s.skip(a - lo),
            quote_trim_back(t) == quote_trim_back(t.take(b - a)),
        decreases b,
    {
        proof {
            assert(t.take(b - a)[b - a - 1] == p@[b - 1]);
            assert(t.take(b - a).take(b - a - 1) =~= t.take(b - 1 - a));
        }
        b -= 1;
    }
    proof {
        if b == a {
            assert(t.take(0) =~= Seq::<u8>::empty());
        } else {
            assert(t.take(b - a)[b - a - 1] == p@[b - 1]);
        }
        assert(quote_trim_back(t) == t.take(b - a));
        assert(p@.subrange(a as int, b as int) =~= t.take(b - a));
    }
    (a, b)
}

/// Extracts the boundary token from a Content-Type header value such as
/// `multipart/form-data; boundary=----WebKitFormBoundaryX7`.
pub fn extract_boundary(content_type: &str) -> (r: Option<String>)
    ensures
        match extract_boundary_spec(content_type) {
            Some(b) => match r {
                Some(s) => valid_utf8(b) && s@ == decode_utf8(b),
                None => !valid_utf8(b),
            },
            None => r is None,
        },
{
    let ghost f = |p: Seq<u8>| piece_boundary(p);
    let ct = content_type.as_bytes();
    let mut semi: Vec<u8> = Vec::new();
    semi.push(59);
    proof {
        assert(semi@ =~= seq![59u8]);
    }
    let mut key: Vec<u8> = Vec::new();
    key.push(98);
    key.push(111);
    key.push(117);
    key.push(110);
    key.push(100);
    key.push(97);
    key.push(114);
    key.push(121);
    key.push(61);
    proof {
        assert(key@ =~= boundary_key());
    }
    let pieces = split_on(ct, semi.as_slice());
    let ghost all = split_on_spec(content_type.spec_bytes(), seq![59u8]);
    let mut idx: usize = 0;
    while idx < pieces.len()
        invariant
            pieces.deep_view() == all,
            all == split_on_spec(content_type.spec_bytes(), seq![59u8]),
            idx <= pieces@.len(),
            key@ == boundary_key(),
            f == (|p: Seq<u8>| piece_boundary(p)),
            forall|j: int| 0 <= j < idx ==> #[trigger] f(all[j]) is None,
        decreases pieces@.len() - idx,
    {
        let piece = pieces[idx];
        proof {
            assert(piece@ =~= all[idx as int]);
        }
        let (lo, hi) = trim_bounds(piece);
        let ghost t = trim_bytes(piece@);
        if hi - lo >= 9 && match_prefix(piece, lo, key.as_slice()) {
            let (qlo, qhi) = quote_trim_bounds(piece, lo + 9, hi);
            let token = slice_to_vec(slice_subrange(piece, qlo, qhi));
            proof {
                assert(piece@.subrange(lo as int, hi as int) == t);
                assert(t.take(9) =~= piece@.subrange(lo as int, lo as int + 9));
                assert(piece@.subrange(lo + 9, hi as int) =~= t.skip(9));
                assert(token@ == trim_quotes(t.skip(9)));
                assert(piece_boundary(piece@) == Some(token@));
                lemma_first_some_value_skip(all, f, idx as int);
                assert(all.skip(idx as int)[0] == all[idx as int]);
                assert(f(all[idx as int]) == piece_boundary(piece@));
            }
            return bytes_to_string(token);
        }
        proof {
            assert(piece@.subrange(lo as int, hi as int) == t);
            if t.len() >= 9 {
                assert(t.take(9) =~= piece@.subrange(lo as int, lo as int + 9));
            }
            assert(piece_boundary(piece@) is None);
            assert(f(all[idx as int]) == piece_boundary(piece@));
        }
        idx += 1;
    }
    proof {
        lemma_first_some_value_skip(all, f, all.len() as int);
        assert(all.skip(all.len() as int) =~= Seq::<Seq<u8>>::empty());
    }
    None
}

/// Whether the bytes of `p` starting at `lo` begin with `key`.
fn match_prefix(p: &[u8], lo: usize, key: &[u8]) -> (b: bool)
    requires
        lo + key@.len() <= p@.len(),
    ensures
        b == (p@.subrange(lo as int, lo as int + key@.len()) == key@),
{
    let mut k: usize = 0;
    let klen = key.len();
    let plen = p.len();
    while k < klen
        invariant
            klen == key@.len(),
            plen == p@.len(),
            lo + key@.len() <= p@.len(),
            k <= klen,
            forall|m: int| 0 <= m < k ==> p@[lo + m] == key@[m],
        decreases klen - k,
    {
        if p[lo + k] != key[k] {
            assert(p@.subrange(lo as int, lo as int + key@.len())[k as int] != key@[k as int]);
            return false;
        }
        k += 1;
    }
    assert(p@.subrange(lo as int, lo as int + key@.len()) =~= key@);
    true
}

/// The bytes between `name="` and the following `"` in a header section.
pub open spec fn disposition_name(h: Seq<u8>) -> Option<Seq<u8>> {
    match find_sub(h, name_quote_key()) {
        Some(i) => match find_sub(h.skip(i + 6), seq![34u8]) {
            Some(e) => Some(h.skip(i + 6).take(e)),
            None => None,
        },
        None => None,
    }
}

/// Parses the `name="..."` value from a Content-Disposition header section.
pub fn parse_disposition_name(headers: &[u8]) -> (r: Option<String>)
    ensures
        match disposition_name(headers@) {
            Some(nm) => match r {
                Some(s) => valid_utf8(nm) && s@ == decode_utf8(nm),
                None => !valid_utf8(nm),
            },
            None => r is None,
        },
{
    let mut key: Vec<u8> = Vec::new();
    key.push(110);
    key.push(97);
    key.push(109);
    key.push(101);
    key.push(61);
    key.push(34);
    proof {
        assert(key@ =~= name_quote_key());
    }
    match find_subsequence(headers, key.as_slice()) {
        Some(i) => {
            proof {
                lemma_find_sub_characterization(headers@, name_quote_key());
            }
            let hlen = headers.len();
            let rest = slice_subrange(headers, i + 6, hlen);
            proof {
                assert(rest@ =~= headers@.skip(i + 6));
            }
            let mut quote: Vec<u8> = Vec::new();
            quote.push(34);
            proof {
                assert(quote@ =~= seq![34u8]);
            }
            match find_subsequence(rest, quote.as_slice()) {
                Some(e) => {
                    proof {
                        lemma_find_sub_characterization(rest@, seq![34u8]);
                    }
                    let name_bytes = slice_to_vec(slice_subrange(rest, 0, e));
                    proof {
                        assert(name_bytes@ =~= headers@.skip(i + 6).take(e as int));
                    }
                    bytes_to_string(name_bytes)
                },
                None => None,
            }
        },
        None => None,
    }
}

/// The `(name, value)` pair a part contributes to the text-field listing:
/// a part with headers, no `filename=`, a well-formed `name="..."`, and a
/// UTF-8 name and value. Parts failing any of these contribute nothing.
pub open spec fn part_text_field(p: Seq<u8>) -> Option<(Seq<char>, Seq<char>)> {
    match part_headers(p) {
        Some(h) => if contains_bytes(h, filename_eq_token()) {
            None
        } else {
            match disposition_name(h) {
                Some(nm) => if valid_utf8(nm) && valid_utf8(part_data(p)) {
                    Some((decode_utf8(nm), decode_utf8(part_data(p))))
                } else {
                    None
                },
                None => None,
            }
        },
        None => None,
    }
}

/// The `(name, value)` pairs of all text fields, in part order.
pub open spec fn text_fields_spec(parts: Seq<Seq<u8>>) -> Seq<(Seq<char>, Seq<char>)>
    decreases parts.len(),
{
    if parts.len() == 0 {
        Seq::empty()
    } else {
        let rest = text_fields_spec(parts.skip(1));
        match part_text_field(parts[0]) {
            Some(pr) => seq![pr] + rest,
            None => rest,
        }
    }
}

/// Extracts all text (non-file) fields from a multipart body as
/// `(name, value)` pairs, in the order their parts appear.
pub fn extract_all_text_fields(body: &[u8], boundary: &str) -> (r: Vec<(String, String)>)
    ensures
        pair_views(r@) == text_fields_spec(split_on_spec(body@, delimiter_spec(boundary))),
{
    let delim = make_delimiter(boundary);
    let sep = make_header_separator();
    let file_pat = make_filename_eq();
    let parts = split_on(body, delim.as_slice());
    let ghost all = split_on_spec(body@, delimiter_spec(boundary));
    let mut result: Vec<(String, String)> = Vec::new();
    let mut idx: usize = 0;
    proof {
        assert(all.skip(0) =~= all);
        assert(pair_views(result@) =~= Seq::<(Seq<char>, Seq<char>)>::empty());
    }
    while idx < parts.len()
        invariant
            parts.deep_view() == all,
            idx <= parts@.len(),
            sep@ == header_separator(),
            file_pat@ == filename_eq_token(),
            text_fields_spec(all) == pair_views(result@) + text_fields_spec(
                all.skip(idx as int),
            ),
        decreases parts@.len() - idx,
    {
        let part = parts[idx];
        proof {
            assert(part@ =~= all[idx as int]);
            assert(all.skip(idx as int)[0] == all[idx as int]);
            assert(all.skip(idx as int).skip(1) =~= all.skip(idx as int + 1));
        }
        let ghost old_pairs = pair_views(result@);
        match find_subsequence(part, sep.as_slice()) {
            Some(sp) => {
                proof {
                    lemma_find_sub_characterization(part@, header_separator());
                }
                let headers = slice_subrange(part, 0, sp);
                proof {
                    assert(headers@ =~= part@.take(sp as int));
                }
                if !contains_pattern(headers, file_pat.as_slice()) {
                    match parse_disposition_name(headers) {
                        Some(name) => {
                            let data = copy_part_data(part, sp);
                            match bytes_to_string(data) {
                                Some(val) => {
                                    result.push((name, val));
                                    proof {
                                        assert(pair_views(result@) =~= old_pairs + seq![
                                            (name@, val@),
                                        ]);
                                    }
                                },
                                None => {},
                            }
                        },
                        None => {},
                    }
                }
            },
            None => {},
        }
        idx += 1;
    }
    proof {
        assert(all.skip(all.len() as int) =~= Seq::<Seq<u8>>::empty());
    }
    result
}

/// The `filename="..."` value in a header section, if well formed.
pub open spec fn upload_filename_of(h: Seq<u8>) -> Option<Seq<u8>> {
    match find_sub(h, filename_quote_key()) {
        Some(i) => match find_sub(h.skip(i + 10), seq![34u8]) {
            Some(e) => Some(h.skip(i + 10).take(e)),
            None => None,
        },
        None => None,
    }
}

/// Whether the part's headers carry a well-formed `filename="..."`.
pub open spec fn has_upload_filename(p: Seq<u8>) -> bool {
    match part_headers(p) {
        Some(h) => upload_filename_of(h) is Some,
        None => false,
    }
}

/// The filename bytes of a part; empty when there are none.
pub open spec fn upload_filename_value(p: Seq<u8>) -> Seq<u8> {
    match part_headers(p) {
        Some(h) => match upload_filename_of(h) {
            Some(nm) => nm,
            None => Seq::empty(),
        },
        None => Seq::empty(),
    }
}

/// What `extract_upload_filename` decodes: the `filename="..."` value of
/// the first part that has one.
pub open spec fn upload_filename_spec(body: Seq<u8>, boundary: &str) -> Option<Seq<u8>> {
    first_part_value(
        split_on_spec(body, delimiter_spec(boundary)),
        |p: Seq<u8>| has_upload_filename(p),
        |p: Seq<u8>| upload_filename_value(p),
    )
}

/// Extracts the `filename="..."` value from the first file part of a
/// multipart body.
pub fn extract_upload_filename(body: &[u8], boundary: &str) -> (r: Option<String>)
    ensures
        match upload_filename_spec(body@, boundary) {
            Some(nm) => match r {
                Some(s) => valid_utf8(nm) && s@ == decode_utf8(nm),
                None => !valid_utf8(nm),
            },
            None => r is None,
        },
{
    let ghost pred = |p: Seq<u8>| has_upload_filename(p);
    let ghost value = |p: Seq<u8>| upload_filename_value(p);
    let delim = make_delimiter(boundary);
    let sep = make_header_separator();
    let fq_pat = make_filename_quote();
    let parts = split_on(body, delim.as_slice());
    let ghost all = split_on_spec(body@, delimiter_spec(boundary));
    let mut idx: usize = 0;
    while idx < parts.len()
        invariant
            parts.deep_view() == all,
            all == split_on_spec(body@, delimiter_spec(boundary)),
            idx <= parts@.len(),
            sep@ == header_separator(),
            fq_pat@ == filename_quote_key(),
            pred == (|p: Seq<u8>| has_upload_filename(p)),
            value == (|p: Seq<u8>| upload_filename_value(p)),
            forall|j: int| 0 <= j < idx ==> !#[trigger] pred(all[j]),
        decreases parts@.len() - idx,
    {
        let part = parts[idx];
        proof {
            assert(part@ =~= all[idx as int]);
        }
        match find_subsequence(part, sep.as_slice()) {
            Some(sp) => {
                proof {
                    lemma_find_sub_characterization(part@, header_separator());
                }
                let headers = slice_subrange(part, 0, sp);
                proof {
                    assert(headers@ =~= part@.take(sp as int));
                }
                match find_subsequence(headers, fq_pat.as_slice()) {
                    Some(fpos) => {
                        proof {
                            lemma_find_sub_characterization(headers@, filename_quote_key());
                        }
                        let hlen = headers.len();
                        let rest = slice_subrange(headers, fpos + 10, hlen);
                        proof {
                            assert(rest@ =~= headers@.skip(fpos + 10));
                        }
                        let mut quote: Vec<u8> = Vec::new();
                        quote.push(34);
                        proof {
                            assert(quote@ =~= seq![34u8]);
                        }
                        match find_subsequence(rest, quote.as_slice()) {
                            Some(e) => {
                                proof {
                                    lemma_find_sub_characterization(rest@, seq![34u8]);
                                }
                                let name_bytes = slice_to_vec(slice_subrange(rest, 0, e));
                                proof {
                                    assert(name_bytes@ =~= headers@.skip(fpos + 10).take(
                                        e as int,
                                    ));
                                    lemma_first_part_value_skip(all, pred, value, idx as int);
                                    assert(all.skip(idx as int)[0] == all[idx as int]);
                                    assert(pred(all[idx as int]) == has_upload_filename(part@));
                                    assert(value(all[idx as int]) == upload_filename_value(
                                        part@,
                                    ));
                                    assert(first_part_value(all.skip(idx as int), pred, value)
                                        == Some(upload_filename_value(part@)));
                                }
                                return bytes_to_string(name_bytes);
                            },
                            None => {
                                proof {
                                    assert(pred(all[idx as int]) == has_upload_filename(part@));
                                }
                            },
                        }
                    },
                    None => {
                        proof {
                            assert(pred(all[idx as int]) == has_upload_filename(part@));
                        }
                    },
                }
            },
            None => {
                proof {
                    assert(pred(all[idx as int]) == has_upload_filename(part@));
                }
            },
        }
        idx += 1;
    }
    proof {
        lemma_first_part_value_skip(all, pred, value, all.len() as int);
        assert(all.skip(all.len() as int) =~= Seq::<Seq<u8>>::empty());
    }
    None
}

} // verus!

//! Byte-sequence searching and splitting, the backbone of the
//! `multipart/form-data` parser.

use vstd::prelude::*;

verus! {

/// Index of the first occurrence of `needle` in `haystack`, if any.
/// An empty needle matches at index 0.
pub open spec fn find_sub<T>(haystack: Seq<T>, needle: Seq<T>) -> Option<int>
    decreases haystack.len(),
{
    if needle.len() == 0 {
        Some(0int)
    } else if haystack.len() < needle.len() {
        None
    } else if haystack.take(needle.len() as int) == needle {
        Some(0int)
    } else {
        match find_sub(haystack.skip(1), needle) {
            Some(j) => Some(j + 1),
            None => None,
        }
    }
}

/// `find_sub` returns the first match: a match in bounds, with no match at
/// any earlier index; or `None` exactly when no index matches.
pub proof fn lemma_find_sub_characterization<T>(haystack: Seq<T>, needle: Seq<T>)
    ensures
        match find_sub(haystack, needle) {
            Some(i) => 0 <= i && i + needle.len() <= haystack.len() && haystack.subrange(
                i,
                i + needle.len(),
            ) == needle && (forall|j: int|
                0 <= j < i ==> #[trigger] haystack.subrange(j, j + needle.len()) != needle),
            None => forall|j: int|
                0 <= j && j + needle.len() <= haystack.len() ==> #[trigger] haystack.subrange(
                    j,
                    j + needle.len(),
                ) != needle,
        },
    decreases haystack.len(),
{
    if needle.len() == 0 {
        assert(haystack.subrange(0, 0) =~= needle);
    } else if haystack.len() < needle.len() {
    } else if haystack.take(needle.len() as int) == needle {
        assert(haystack.subrange(0, needle.len() as int) =~= haystack.take(needle.len() as int));
    } else {
        lemma_find_sub_characterization(haystack.skip(1), needle);
        match find_sub(haystack.skip(1), needle) {
            Some(j2) => {
                assert(haystack.subrange(j2 + 1, j2 + 1 + needle.len()) =~= haystack.skip(
                    1,
                ).subrange(j2, j2 + needle.len()));
                assert forall|j: int| 0 <= j < j2 + 1 implies #[trigger] haystack.subrange(
                    j,
                    j + needle.len(),
                ) != needle by {
                    if j == 0 {
                        assert(haystack.subrange(0, needle.len() as int) =~= haystack.take(
                            needle.len() as int,
                        ));
                    } else {
                        assert(haystack.subrange(j, j + needle.len()) =~= haystack.skip(
                            1,
                        ).subrange(j - 1, j - 1 + needle.len()));
                    }
                }
            },
            None => {
                assert forall|j: int|
                    0 <= j && j + needle.len() <= haystack.len() implies #[trigger] haystack
                    .subrange(j, j + needle.len()) != needle by {
                    if j == 0 {
                        assert(haystack.subrange(0, needle.len() as int) =~= haystack.take(
                            needle.len() as int,
                        ));
                    } else {
                        assert(haystack.subrange(j, j + needle.len()) =~= haystack.skip(
                            1,
                        ).subrange(j - 1, j - 1 + needle.len()));
                    }
                }
            },
        }
    }
}

/// Whether `needle` occurs in `haystack` starting at index `i`.
fn match_at(haystack: &[u8], i: usize, needle: &[u8]) -> (b: bool)
    requires
        i + needle@.len() <= haystack@.len(),
    ensures
        b == (haystack@.subrange(i as int, i as int + needle@.len()) == needle@),
{
    let hlen = haystack.len();
    let nlen = needle.len();
    let mut k: usize = 0;
    while k < nlen
        invariant
            hlen == haystack@.len(),
            nlen == needle@.len(),
            i + needle@.len() <= haystack@.len(),
            k <= needle@.len(),
            forall|m: int| 0 <= m < k ==> haystack@[i + m] == needle@[m],
        decreases needle@.len() - k,
    {
        if haystack[i + k] != needle[k] {
            assert(haystack@.subrange(i as int, i as int + needle@.len())[k as int] != needle@[k as int]);
            return false;
        }
        k += 1;
    }
    assert(haystack@.subrange(i as int, i as int + needle@.len()) =~= needle@);
    true
}

/// Returns the index of the first occurrence of `needle` in `haystack`.
pub fn find_subsequence(haystack: &[u8], needle: &[u8]) -> (r: Option<usize>)
    ensures
        match r {
            Some(i) => find_sub(haystack@, needle@) == Some(i as int),
            None => find_sub(haystack@, needle@) is None,
        },
{
    proof {
        lemma_find_sub_characterization(haystack@, needle@);
    }
    if needle.len() == 0 {
        return Some(0);
    }
    if haystack.len() < needle.len() {
        return None;
    }
    let limit = haystack.len() - needle.len();
    let mut i: usize = 0;
    while i <= limit
        invariant
            needle@.len() >= 1,
            needle@.len() <= haystack@.len(),
            limit == haystack@.len() - needle@.len(),
            limit < usize::MAX,
            i <= limit + 1,
            forall|j: int| 0 <= j < i ==> #[trigger] haystack@.subrange(j, j + needle@.len()) != needle@,
        decreases haystack@.len() - i,
    {
        if match_at(haystack, i, needle) {
            proof {
                lemma_find_sub_characterization(haystack@, needle@);
                match find_sub(haystack@, needle@) {
                    Some(w) => {
                        if w < i {
                            assert(haystack@.subrange(w, w + needle@.len()) != needle@);
                        }
                        if w > i {
                            assert(haystack@.subrange(i as int, i as int + needle@.len())
                                != needle@);
                        }
                    },
                    None => {
                        assert(haystack@.subrange(i as int, i as int + needle@.len()) != needle@);
                    },
                }
            }
            return Some(i);
        }
        i += 1;
    }
    proof {
        lemma_find_sub_characterization(haystack@, needle@);
    }
    None
}

/// The pieces of `haystack` between occurrences of `needle`, the needle
/// itself excluded; one trailing piece after the last occurrence.
pub open spec fn split_on_spec(haystack: Seq<u8>, needle: Seq<u8>) -> Seq<Seq<u8>>
    decreases haystack.len(),
        when needle.len() > 0
        via split_on_spec_dec
{
    match find_sub(haystack, needle) {
        Some(i) => seq![haystack.take(i)] + split_on_spec(
            haystack.skip(i + needle.len()),
            needle,
        ),
        None => seq![haystack],
    }
}

#[via_fn]
proof fn split_on_spec_dec(haystack: Seq<u8>, needle: Seq<u8>) {
    lemma_find_sub_characterization(haystack, needle);
}

/// Splits `haystack` on every occurrence of `needle`, returning the pieces
/// between occurrences (excluding the needle itself).
pub fn split_on<'a>(haystack: &'a [u8], needle: &[u8]) -> (parts: Vec<&'a [u8]>)
    requires
        needle@.len() > 0,
    ensures
        parts.deep_view() == split_on_spec(haystack@, needle@),
{
    let mut parts: Vec<&'a [u8]> = Vec::new();
    let mut start: usize = 0;
    proof {
        assert(haystack@.skip(0) =~= haystack@);
        assert(parts.deep_view() =~~= Seq::<Seq<u8>>::empty());
        assert(Seq::<Seq<u8>>::empty() + split_on_spec(haystack@, needle@) =~= split_on_spec(
            haystack@,
            needle@,
        ));
    }
    loop
        invariant_except_break
            needle@.len() > 0,
            start <= haystack@.len(),
            split_on_spec(haystack@, needle@) == parts.deep_view() + split_on_spec(
                haystack@.skip(start as int),
                needle@,
            ),
        ensures
            parts.deep_view() == split_on_spec(haystack@, needle@),
        decreases haystack@.len() - start,
    {
        let rest = vstd::slice::slice_subrange(haystack, start, haystack.len());
        proof {
            assert(rest@ =~= haystack@.skip(start as int));
            lemma_find_sub_characterization(rest@, needle@);
        }
        let ghost old_dv = parts.deep_view();
        match find_subsequence(rest, needle) {
            Some(pos) => {
                parts.push(vstd::slice::slice_subrange(haystack, start, start + pos));
                proof {
                    let tail = haystack@.skip(start as int);
                    assert(tail.take(pos as int) =~= haystack@.subrange(
                        start as int,
                        start + pos,
                    ));
                    assert(tail.skip(pos + needle@.len()) =~= haystack@.skip(
                        start + pos + needle@.len(),
                    ));
                    assert(split_on_spec(tail, needle@) == seq![tail.take(pos as int)]
                        + split_on_spec(tail.skip(pos + needle@.len()), needle@));
                    assert(parts.deep_view() =~~= old_dv + seq![
                        haystack@.subrange(start as int, start + pos),
                    ]);
                }
                start = start + pos + needle.len();
            },
            None => {
                parts.push(rest);
                proof {
                    assert(split_on_spec(haystack@.skip(start as int), needle@) == seq![
                        haystack@.skip(start as int),
                    ]);
                    assert(parts.deep_view() =~~= old_dv + seq![haystack@.skip(start as int)]);
                }
                break ;
            },
        }
    }
    parts
}

} // verus!

//! Page rendering: HTML escaping and `{{TOKEN}}` template substitution.
//!
//! A template is rendered in one pass: each `{{TOKEN}}` span is replaced
//! by the token's value — the global page variables first, then the
//! caller's fills — and a token nobody fills is blanked, so no raw
//! `{{TOKEN}}` ever reaches the browser.

use vstd::prelude::*;

use crate::bytes::{find_sub, lemma_find_sub_characterization};
use crate::form::{form_lookup, lemma_form_lookup_skip};
use crate::studio::FlashMessage;
use crate::text::{chars_to_string, push_str_chars, push_usize_chars, decimal_digits,
    str_to_chars};
use vstd::slice::slice_subrange;

verus! {

/// Which studio tab is active.
#[derive(Debug, Clone, Copy, PartialEq, Eq, Structural)]
pub enum Page {
    Architect,
    Dataset,
    Train,
    Evaluate,
    Test,
}

/// The index a page takes in the tab order.
pub open spec fn page_index(p: Page) -> u8 {
    match p {
        Page::Architect => 0u8,
        Page::Dataset => 1u8,
        Page::Train => 2u8,
        Page::Evaluate => 3u8,
        Page::Test => 4u8,
    }
}

/// Returns the index of the page in the tab order.
pub fn page_number(p: Page) -> (r: u8)
    ensures
        r == page_index(p),
{
    match p {
        Page::Architect => 0,
        Page::Dataset => 1,
        Page::Train => 2,
        Page::Evaluate => 3,
        Page::Test => 4,
    }
}

/// The expansion of one character under HTML escaping.
pub open spec fn escape_char(c: char) -> Seq<char> {
    if c == '&' {
        "&amp;"@
    } else if c == '<' {
        "&lt;"@
    } else if c == '>' {
        "&gt;"@
    } else if c == '"' {
        "&quot;"@
    } else {
        seq![c]
    }
}

/// `s` with `&`, `<`, `>` and `"` written as HTML entities.
pub open spec fn html_escape_spec(s: Seq<char>) -> Seq<char>
    decreases s.len(),
{
    if s.len() == 0 {
        Seq::empty()
    } else {
        escape_char(s[0]) + html_escape_spec(s.skip(1))
    }
}

/// Appends the HTML-escaped characters of `s` to `out`.
pub(crate) fn push_escaped(out: &mut Vec<char>, s: &str)
    ensures
        final(out)@ == old(out)@ + html_escape_spec(s@),
{
    let cs = str_to_chars(s);
    let n = cs.len();
    let mut i: usize = 0;
    let ghost mut acc: Seq<char> = Seq::empty();
    proof {
        assert(s@.skip(0) =~= s@);
    }
    while i < n
        invariant
            n == cs@.len(),
            cs@ == s@,
            i <= n,
            out@ == old(out)@ + acc,
            html_escape_spec(s@) == acc + html_escape_spec(s@.skip(i as int)),
        decreases n - i,
    {
        let c = cs[i];
        if c == '&' {
            push_str_chars(out, "&amp;");
        } else if c == '<' {
            push_str_chars(out, "&lt;");
        } else if c == '>' {
            push_str_chars(out, "&gt;");
        } else if c == '"' {
            push_str_chars(out, "&quot;");
        } else {
            out.push(c);
        }
        proof {
            acc = acc + escape_char(s@[i as int]);
            assert(s@.skip(i as int).skip(1) =~= s@.skip(i as int + 1));
        }
        i += 1;
    }
    proof {
        assert(s@.skip(n as int) =~= Seq::<char>::empty());
    }
}

/// Escapes `&`, `<`, `>` and `"` for safe embedding in HTML.
pub fn html_escape(s: &str) -> (r: String)
    ensures
        r@ == html_escape_spec(s@),
{
    let mut out: Vec<char> = Vec::new();
    push_escaped(&mut out, s);
    chars_to_string(&out)
}

/// The HTML of a flash message box, its text escaped; nothing when there
/// is no message.
pub open spec fn flash_html_chars(f: FlashMessage) -> Seq<char> {
    "<div class=\"flash "@ + (match f.kind {
        crate::studio::FlashKind::Success => "flash-success"@,
        crate::studio::FlashKind::Error => "flash-error"@,
    }) + "\">"@ + html_escape_spec(f.text@) + "</div>"@
}

/// Renders a flash message as an HTML notice box.
pub fn render_flash_html(flash: Option<&FlashMessage>) -> (r: String)
    ensures
        r@ == match flash {
            Some(f) => flash_html_chars(*f),
            None => Seq::<char>::empty(),
        },
{
    match flash {
        None => {
            let out: Vec<char> = Vec::new();
            chars_to_string(&out)
        },
        Some(f) => {
            let mut out: Vec<char> = Vec::new();
            push_str_chars(&mut out, "<div class=\"flash ");
            match f.kind {
                crate::studio::FlashKind::Success => push_str_chars(&mut out, "flash-success"),
                crate::studio::FlashKind::Error => push_str_chars(&mut out, "flash-error"),
            }
            push_str_chars(&mut out, "\">");
            push_escaped(&mut out, f.text.as_str());
            push_str_chars(&mut out, "</div>");
            chars_to_string(&out)
        },
    }
}

/// The two characters opening a template token.
pub open spec fn open_marker() -> Seq<char> {
    seq!['{', '{']
}

/// The two characters closing a template token.
pub open spec fn close_marker() -> Seq<char> {
    seq!['}', '}']
}

/// The rendering of a template: each `{{TOKEN}}` span replaced by
/// `lookup` of the token text; text after an unclosed `{{` is kept.
pub open spec fn render_spec(t: Seq<char>, lookup: spec_fn(Seq<char>) -> Seq<char>) -> Seq<char>
    decreases t.len(),
        via render_spec_dec
{
    match find_sub(t, open_marker()) {
        Some(i) => {
            let after = t.skip(i + 2);
            match find_sub(after, close_marker()) {
                Some(e) => t.take(i) + lookup(after.take(e)) + render_spec(
                    after.skip(e + 2),
                    lookup,
                ),
                None => t,
            }
        },
        None => t,
    }
}

#[via_fn]
proof fn render_spec_dec(t: Seq<char>, lookup: spec_fn(Seq<char>) -> Seq<char>) {
    lemma_find_sub_characterization(t, open_marker());
    match find_sub(t, open_marker()) {
        Some(i) => {
            lemma_find_sub_characterization(t.skip(i + 2), close_marker());
        },
        None => {},
    }
}

/// The value substituted for a token: the global page variables first,
/// then the first matching fill, then nothing.
pub open spec fn token_value(
    token: Seq<char>,
    page: Page,
    tab_unlock: u8,
    training_running: bool,
    fills: Seq<(String, String)>,
) -> Seq<char> {
    if token == "TAB_UNLOCK"@ {
        decimal_digits(tab_unlock as nat)
    } else if token == "ACTIVE_TAB"@ {
        decimal_digits(page_index(page) as nat)
    } else if token == "TRAINING_RUNNING"@ {
        if training_running {
            "true"@
        } else {
            "false"@
        }
    } else {
        match form_lookup(fills, token) {
            Some(v) => v,
            None => Seq::empty(),
        }
    }
}

/// The token lookup used by `render_page`.
pub open spec fn page_lookup(
    page: Page,
    tab_unlock: u8,
    training_running: bool,
    fills: Seq<(String, String)>,
) -> spec_fn(Seq<char>) -> Seq<char> {
    |token: Seq<char>| token_value(token, page, tab_unlock, training_running, fills)
}

/// Whether the characters of `h` are those of `s`.
fn slice_eq_str(h: &[char], s: &str) -> (r: bool)
    ensures
        r == (h@ == s@),
{
    let n = s.unicode_len();
    if h.len() != n {
        return false;
    }
    let mut i: usize = 0;
    while i < n
        invariant
            n == s@.len(),
            n == h@.len(),
            i <= n,
            forall|j: int| 0 <= j < i ==> h@[j] == s@[j],
        decreases n - i,
    {
        if h[i] != s.get_char(i) {
            return false;
        }
        i += 1;
    }
    proof {
        assert(h@ =~= s@);
    }
    true
}

/// Appends `h[a..b]` to `out`.
fn push_char_range(out: &mut Vec<char>, h: &[char], a: usize, b: usize)
    requires
        a <= b <= h@.len(),
    ensures
        final(out)@ == old(out)@ + h@.subrange(a as int, b as int),
{
    let mut i: usize = a;
    while i < b
        invariant
            a <= i <= b <= h@.len(),
            out@ == old(out)@ + h@.subrange(a as int, i as int),
        decreases b - i,
    {
        out.push(h[i]);
        proof {
            assert(h@.subrange(a as int, i as int + 1) =~= h@.subrange(a as int, i as int)
                + seq![h@[i as int]]);
        }
        i += 1;
    }
}

/// Finds the first occurrence of the pair `ab` at or after `from`.
fn find_marker(h: &[char], from: usize, a: char, b: char) -> (r: Option<usize>)
    requires
        from <= h@.len(),
    ensures
        match r {
            Some(i) => from <= i && find_sub(h@.skip(from as int), seq![a, b]) == Some(
                i - from,
            ),
            None => find_sub(h@.skip(from as int), seq![a, b]) is None,
        },
{
    let ghost t = h@.skip(from as int);
    let ghost needle = seq![a, b];
    let n = h.len();
    proof {
        lemma_find_sub_characterization(t, needle);
    }
    if n - from < 2 {
        return None;
    }
    let mut j: usize = from;
    while j <= n - 2
        invariant
            n == h@.len(),
            t == h@.skip(from as int),
            needle == seq![a, b],
            from <= j <= n - 1,
            n - from >= 2,
            forall|k: int|
                0 <= k < j - from ==> #[trigger] t.subrange(k, k + 2) != seq![a, b],
        decreases n - j,
    {
        let hit = h[j] == a && h[j + 1] == b;
        proof {
            let k = j - from;
            assert(t.subrange(k, k + 2)[0] == h@[j as int]);
            assert(t.subrange(k, k + 2)[1] == h@[j as int + 1]);
            if hit {
                assert(t.subrange(k, k + 2) =~= seq![a, b]);
                lemma_find_sub_characterization(t, needle);
                match find_sub(t, needle) {
                    Some(w) => {
                        if w < k {
                            assert(t.subrange(w, w + 2) != seq![a, b]);
                        }
                        if w > k {
                            assert(t.subrange(k, k + 2) != seq![a, b]);
                        }
                    },
                    None => {
                        assert(t.subrange(k, k + 2) != seq![a, b]);
                    },
                }
            } else {
                assert(t.subrange(k, k + 2) != seq![a, b]);
            }
        }
        if hit {
            return Some(j);
        }
        j += 1;
    }
    proof {
        lemma_find_sub_characterization(t, needle);
        match find_sub(t, needle) {
            Some(w) => {
                assert(t.subrange(w, w + 2) != seq![a, b]);
            },
            None => {},
        }
    }
    None
}

/// The characters substituted for one token.
fn token_chars(
    token: &[char],
    page: Page,
    tab_unlock: u8,
    training_running: bool,
    fills: &Vec<(String, String)>,
) -> (v: Vec<char>)
    ensures
        v@ == token_value(token@, page, tab_unlock, training_running, fills@),
{
    if slice_eq_str(token, "TAB_UNLOCK") {
        let mut v: Vec<char> = Vec::new();
        push_usize_chars(&mut v, tab_unlock as usize);
        v
    } else if slice_eq_str(token, "ACTIVE_TAB") {
        let mut v: Vec<char> = Vec::new();
        push_usize_chars(&mut v, page_number(page) as usize);
        v
    } else if slice_eq_str(token, "TRAINING_RUNNING") {
        if training_running {
            str_to_chars("true")
        } else {
            str_to_chars("false")
        }
    } else {
        let n = fills.len();
        let mut j: usize = 0;
        while j < n
            invariant
                n == fills@.len(),
                j <= n,
                token@ != "TAB_UNLOCK"@,
                token@ != "ACTIVE_TAB"@,
                token@ != "TRAINING_RUNNING"@,
                forall|m: int| 0 <= m < j ==> (#[trigger] fills@[m]).0@ != token@,
            decreases n - j,
        {
            let pair = &fills[j];
            if slice_eq_str(token, pair.0.as_str()) {
                let v = str_to_chars(pair.1.as_str());
                proof {
                    lemma_form_lookup_skip(fills@, token@, j as int);
                    assert(fills@.skip(j as int)[0] == fills@[j as int]);
                }
                return v;
            }
            j += 1;
        }
        proof {
            lemma_form_lookup_skip(fills@, token@, n as int);
            assert(fills@.skip(n as int) =~= Seq::<(String, String)>::empty());
        }
        Vec::new()
    }
}

/// Renders the studio page template: substitutes the global variables
/// `TAB_UNLOCK`, `ACTIVE_TAB` and `TRAINING_RUNNING`, then the caller's
/// `(token, value)` fills, and blanks every token left over.
#[verifier::rlimit(60)]
pub fn render_page(
    template: &str,
    page: Page,
    tab_unlock: u8,
    training_running: bool,
    fills: &Vec<(String, String)>,
) -> (r: String)
    ensures
        r@ == render_spec(template@, page_lookup(page, tab_unlock, training_running, fills@)),
{
    let ghost lu = page_lookup(page, tab_unlock, training_running, fills@);
    let tv = str_to_chars(template);
    let n = tv.len();
    let mut out: Vec<char> = Vec::new();
    let mut pos: usize = 0;
    proof {
        assert(template@.skip(0) =~= template@);
        assert(Seq::<char>::empty() + render_spec(template@, lu) =~= render_spec(
            template@,
            lu,
        ));
    }
    loop
        invariant_except_break
            n == template@.len(),
            tv@ == template@,
            pos <= n,
            lu == page_lookup(page, tab_unlock, training_running, fills@),
            render_spec(template@, lu) == out@ + render_spec(template@.skip(pos as int), lu),
        ensures
            out@ == render_spec(template@, lu),
        decreases n - pos,
    {
        let ghost t = template@.skip(pos as int);
        match find_marker(tv.as_slice(), pos, '{', '{') {
            Some(i) => {
                proof {
                    assert(open_marker() =~= seq!['{', '{']);
                    lemma_find_sub_characterization(t, seq!['{', '{']);
                }
                match find_marker(tv.as_slice(), i + 2, '}', '}') {
                    Some(e) => {
                        proof {
                            assert(close_marker() =~= seq!['}', '}']);
                            lemma_find_sub_characterization(
                                template@.skip(i as int + 2),
                                seq!['}', '}'],
                            );
                        }
                        let ghost old_out = out@;
                        push_char_range(&mut out, tv.as_slice(), pos, i);
                        let token = slice_subrange(tv.as_slice(), i + 2, e);
                        let val = token_chars(token, page, tab_unlock, training_running, fills);
                        let vn = val.len();
                        push_char_range(&mut out, val.as_slice(), 0, vn);
                        proof {
                            let gi = i - pos;
                            let after = t.skip(gi + 2);
                            assert(after =~= template@.skip(i as int + 2));
                            assert(find_sub(after, close_marker()) == Some(e - (i + 2)));
                            let ge = e - (i + 2);
                            assert(t.take(gi) =~= template@.subrange(pos as int, i as int));
                            assert(after.take(ge) =~= template@.subrange(i as int + 2, e as int));
                            assert(token@ =~= after.take(ge));
                            assert(after.skip(ge + 2) =~= template@.skip(e as int + 2));
                            assert(val@.subrange(0, vn as int) =~= val@);
                            assert(render_spec(t, lu) == t.take(gi) + lu(after.take(ge))
                                + render_spec(after.skip(ge + 2), lu));
                            assert(lu(after.take(ge)) == token_value(
                                token@,
                                page,
                                tab_unlock,
                                training_running,
                                fills@,
                            ));
                            assert(out@ =~= old_out + t.take(gi) + lu(after.take(ge)));
                        }
                        pos = e + 2;
                    },
                    None => {
                        push_char_range(&mut out, tv.as_slice(), pos, n);
                        proof {
                            assert(close_marker() =~= seq!['}', '}']);
                            assert(t.skip(i - pos + 2) =~= template@.skip(i as int + 2));
                            assert(render_spec(t, lu) == t);
                            assert(template@.subrange(pos as int, n as int) =~= t);
                        }
                        break ;
                    },
                }
            },
            None => {
                push_char_range(&mut out, tv.as_slice(), pos, n);
                proof {
                    assert(render_spec(t, lu) == t);
                    assert(template@.subrange(pos as int, n as int) =~= t);
                }
                break ;
            },
        }
    }
    chars_to_string(&out)
}

/// The lookup that blanks every token.
pub open spec fn blank_lookup() -> spec_fn(Seq<char>) -> Seq<char> {
    |token: Seq<char>| Seq::<char>::empty()
}

/// Replaces any `{{TOKEN}}` that was not already substituted with an
/// empty string, so a missed token yields a clean page rather than a
/// leaked placeholder.
#[verifier::rlimit(60)]
pub fn blank_remaining(html: &str) -> (r: String)
    ensures
        r@ == render_spec(html@, blank_lookup()),
{
    let ghost lu = blank_lookup();
    let tv = str_to_chars(html);
    let n = tv.len();
    let mut out: Vec<char> = Vec::new();
    let mut pos: usize = 0;
    proof {
        assert(html@.skip(0) =~= html@);
        assert(Seq::<char>::empty() + render_spec(html@, lu) =~= render_spec(html@, lu));
    }
    loop
        invariant_except_break
            n == html@.len(),
            tv@ == html@,
            pos <= n,
            lu == blank_lookup(),
            render_spec(html@, lu) == out@ + render_spec(html@.skip(pos as int), lu),
        ensures
            out@ == render_spec(html@, lu),
        decreases n - pos,
    {
        let ghost t = html@.skip(pos as int);
        match find_marker(tv.as_slice(), pos, '{', '{') {
            Some(i) => {
                proof {
                    assert(open_marker() =~= seq!['{', '{']);
                    lemma_find_sub_characterization(t, seq!['{', '{']);
                }
                match find_marker(tv.as_slice(), i + 2, '}', '}') {
                    Some(e) => {
                        proof {
                            assert(close_marker() =~= seq!['}', '}']);
                            lemma_find_sub_characterization(
                                html@.skip(i as int + 2),
                                seq!['}', '}'],
                            );
                        }
                        let ghost old_out = out@;
                        push_char_range(&mut out, tv.as_slice(), pos, i);
                        proof {
                            let gi = i - pos;
                            let after = t.skip(gi + 2);
                            assert(after =~= html@.skip(i as int + 2));
                            assert(find_sub(after, close_marker()) == Some(e - (i + 2)));
                            let ge = e - (i + 2);
                            assert(t.take(gi) =~= html@.subrange(pos as int, i as int));
                            assert(after.skip(ge + 2) =~= html@.skip(e as int + 2));
                            assert(render_spec(t, lu) == t.take(gi) + lu(after.take(ge))
                                + render_spec(after.skip(ge + 2), lu));
                            assert(lu(after.take(ge)) =~= Seq::<char>::empty());
                            assert(out@ =~= old_out + t.take(gi) + lu(after.take(ge)));
                        }
                        pos = e + 2;
                    },
                    None => {
                        push_char_range(&mut out, tv.as_slice(), pos, n);
                        proof {
                            assert(close_marker() =~= seq!['}', '}']);
                            assert(t.skip(i - pos + 2) =~= html@.skip(i as int + 2));
                            assert(render_spec(t, lu) == t);
                            assert(html@.subrange(pos as int, n as int) =~= t);
                        }
                        break ;
                    },
                }
            },
            None => {
                push_char_range(&mut out, tv.as_slice(), pos, n);
                proof {
                    assert(render_spec(t, lu) == t);
                    assert(html@.subrange(pos as int, n as int) =~= t);
                }
                break ;
            },
        }
    }
    chars_to_string(&out)
}

} // verus!

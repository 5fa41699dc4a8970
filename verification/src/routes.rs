//! Request routing: URL splitting, route matching, and model-name
//! hygiene for the download and import paths.

use vstd::prelude::*;

use crate::bytes::{find_sub, lemma_find_sub_characterization};
use crate::text::{chars_to_string, push_str_chars, str_eq, str_to_chars};
use vstd::slice::{slice_subrange, slice_to_vec};

verus! {

broadcast use vstd::string::group_string_axioms;

/// Where a request goes.
#[derive(Debug, Clone, PartialEq, Eq)]
pub enum Route {
    /// `GET /` — redirect to the architect tab.
    RootRedirect,
    /// `GET /architect`
    ArchitectGet,
    /// `POST /architect/save`
    ArchitectSave,
    /// `GET /dataset`
    DatasetGet,
    /// `POST /dataset/upload`
    DatasetUpload,
    /// `POST /dataset/upload-idx`
    DatasetUploadIdx,
    /// `POST /dataset/builtin`
    DatasetBuiltin,
    /// `GET /train`
    TrainGet,
    /// `POST /train/start`
    TrainStart,
    /// `POST /train/stop`
    TrainStop,
    /// `GET /train/events` — the long-lived SSE stream.
    SseEvents,
    /// `GET /evaluate`
    EvaluateGet,
    /// `GET /evaluate/export`
    EvaluateExport,
    /// `GET /test`
    TestGet,
    /// `POST /test/infer`
    TestInfer,
    /// `POST /test/import-model`
    TestImportModel,
    /// `GET /models/<name>/download`
    ModelDownload { name: String },
    /// Anything else.
    NotFound,
}

/// Finds the first occurrence of `c`.
fn find_char(h: &[char], c: char) -> (r: Option<usize>)
    ensures
        match r {
            Some(i) => find_sub(h@, seq![c]) == Some(i as int),
            None => find_sub(h@, seq![c]) is None,
        },
{
    let n = h.len();
    let mut i: usize = 0;
    while i < n
        invariant
            n == h@.len(),
            i <= n,
            forall|j: int| 0 <= j < i ==> #[trigger] h@.subrange(j, j + 1) != seq![c],
        decreases n - i,
    {
        let hit = h[i] == c;
        proof {
            assert(h@.subrange(i as int, i as int + 1) =~= seq![h@[i as int]]);
            if !hit {
                assert(h@.subrange(i as int, i as int + 1) != seq![c]) by {
                    if h@.subrange(i as int, i as int + 1) == seq![c] {
                        assert(seq![c][0] == c);
                        assert(seq![h@[i as int]][0] == h@[i as int]);
                        assert(h@[i as int] == c);
                    }
                }
            }
            if hit {
                lemma_find_sub_characterization(h@, seq![c]);
                match find_sub(h@, seq![c]) {
                    Some(w) => {
                        if w < i {
                            assert(h@.subrange(w, w + 1) != seq![c]);
                        }
                        if w > i {
                            assert(h@.subrange(i as int, i as int + 1) != seq![c]);
                        }
                    },
                    None => {
                        assert(h@.subrange(i as int, i as int + 1) != seq![c]);
                    },
                }
            }
        }
        if hit {
            return Some(i);
        }
        i += 1;
    }
    proof {
        lemma_find_sub_characterization(h@, seq![c]);
        match find_sub(h@, seq![c]) {
            Some(w) => {
                assert(h@.subrange(w, w + 1) != seq![c]);
            },
            None => {},
        }
    }
    None
}

/// Splits a request URL at its first `?` into path and query; without
/// one, the whole URL is the path and the query is empty.
pub fn split_path_query(url: &str) -> (r: (String, String))
    ensures
        match find_sub(url@, seq!['?']) {
            Some(i) => r.0@ == url@.take(i) && r.1@ == url@.skip(i + 1),
            None => r.0@ == url@ && r.1@ == Seq::<char>::empty(),
        },
{
    let cs = str_to_chars(url);
    let n = cs.len();
    match find_char(cs.as_slice(), '?') {
        Some(i) => {
            proof {
                lemma_find_sub_characterization(url@, seq!['?']);
            }
            let path = chars_to_string(&slice_to_vec(slice_subrange(cs.as_slice(), 0, i)));
            let query = chars_to_string(&slice_to_vec(slice_subrange(cs.as_slice(), i + 1, n)));
            proof {
                assert(path@ =~= url@.take(i as int));
                assert(query@ =~= url@.skip(i as int + 1));
            }
            (path, query)
        },
        None => {
            let path = chars_to_string(&cs);
            let query: Vec<char> = Vec::new();
            (path, chars_to_string(&query))
        },
    }
}

/// Whether `name` is safe to use as a model file stem: non-empty, no
/// path separators, no `..`.
pub fn is_safe_model_name(name: &str) -> (b: bool)
    ensures
        b == (name@.len() > 0 && !name@.contains('/') && !name@.contains('\\') && find_sub(
            name@,
            seq!['.', '.'],
        ) is None),
{
    let cs = str_to_chars(name);
    let n = cs.len();
    if n == 0 {
        return false;
    }
    let mut i: usize = 0;
    while i < n
        invariant
            n == cs@.len(),
            cs@ == name@,
            i <= n,
            forall|j: int| 0 <= j < i ==> name@[j] != '/' && name@[j] != '\\',
            forall|j: int|
                0 <= j < i && j + 2 <= n ==> !((#[trigger] name@[j]) == '.' && name@[j + 1]
                    == '.'),
        decreases n - i,
    {
        let c = cs[i];
        if c == '/' || c == '\\' {
            proof {
                assert(name@.contains(c)) by {
                    assert(name@[i as int] == c);
                }
            }
            return false;
        }
        if c == '.' && i + 1 < n && cs[i + 1] == '.' {
            proof {
                lemma_find_sub_characterization(name@, seq!['.', '.']);
                assert(name@.subrange(i as int, i as int + 2) =~= seq!['.', '.']);
                match find_sub(name@, seq!['.', '.']) {
                    Some(_) => {},
                    None => {
                        assert(name@.subrange(i as int, i as int + 2) != seq!['.', '.']);
                    },
                }
            }
            return false;
        }
        i += 1;
    }
    proof {
        assert forall|c: char| name@.contains(c) implies c != '/' && c != '\\' by {
            let j = choose|j: int| 0 <= j < name@.len() && name@[j] == c;
        }
        lemma_find_sub_characterization(name@, seq!['.', '.']);
        match find_sub(name@, seq!['.', '.']) {
            Some(w) => {
                assert(name@.subrange(w, w + 2) =~= seq![name@[w], name@[w + 1]]);
                assert(!(name@[w] == '.' && name@[w + 1] == '.'));
            },
            None => {},
        }
    }
    true
}

/// The character a model-name character maps to: letters, digits, `_`
/// and `-` stay; anything else becomes `_`.
pub open spec fn sanitize_char(c: char) -> char {
    if ('0' <= c && c <= '9') || ('a' <= c && c <= 'z') || ('A' <= c && c <= 'Z') || c == '_'
        || c == '-' {
        c
    } else {
        '_'
    }
}

/// A file stem mapped character by character to a safe model name.
pub open spec fn sanitize_spec(s: Seq<char>) -> Seq<char> {
    s.map_values(|c: char| sanitize_char(c))
}

/// Sanitizes an uploaded file stem into a model name: letters, digits,
/// `_` and `-` are kept, anything else becomes `_`; an empty stem gets
/// a default name.
pub fn sanitize_model_name(stem: &str) -> (r: String)
    ensures
        stem@.len() == 0 ==> r@ == "imported_model"@,
        stem@.len() > 0 ==> r@ == sanitize_spec(stem@),
{
    let cs = str_to_chars(stem);
    let n = cs.len();
    if n == 0 {
        let mut out: Vec<char> = Vec::new();
        push_str_chars(&mut out, "imported_model");
        return chars_to_string(&out);
    }
    let mut out: Vec<char> = Vec::new();
    let mut i: usize = 0;
    while i < n
        invariant
            n == cs@.len(),
            cs@ == stem@,
            i <= n,
            out@ =~= sanitize_spec(stem@.take(i as int)),
        decreases n - i,
    {
        let c = cs[i];
        let kept = ('0' <= c && c <= '9') || ('a' <= c && c <= 'z') || ('A' <= c && c <= 'Z')
            || c == '_' || c == '-';
        if kept {
            out.push(c);
        } else {
            out.push('_');
        }
        proof {
            assert(out@ =~= sanitize_spec(stem@.take(i as int + 1)));
        }
        i += 1;
    }
    proof {
        assert(stem@.take(n as int) =~= stem@);
    }
    chars_to_string(&out)
}

/// Dispatches a request: which handler `(method, path)` names. The
/// model-download route carries the stem between `/models/` and
/// `/download`, empty when the two fixed parts overlap.
pub fn route_of(method: &str, path: &str) -> (r: Route)
    ensures
        r == Route::SseEvents <==> (method@ == "GET"@ && path@ == "/train/events"@),
        r == Route::RootRedirect <==> (method@ == "GET"@ && path@ == "/"@),
        r == Route::ArchitectGet <==> (method@ == "GET"@ && path@ == "/architect"@),
        r == Route::ArchitectSave <==> (method@ == "POST"@ && path@ == "/architect/save"@),
        r == Route::DatasetGet <==> (method@ == "GET"@ && path@ == "/dataset"@),
        r == Route::DatasetUpload <==> (method@ == "POST"@ && path@ == "/dataset/upload"@),
        r == Route::DatasetUploadIdx <==> (method@ == "POST"@ && path@
            == "/dataset/upload-idx"@),
        r == Route::DatasetBuiltin <==> (method@ == "POST"@ && path@ == "/dataset/builtin"@),
        r == Route::TrainGet <==> (method@ == "GET"@ && path@ == "/train"@),
        r == Route::TrainStart <==> (method@ == "POST"@ && path@ == "/train/start"@),
        r == Route::TrainStop <==> (method@ == "POST"@ && path@ == "/train/stop"@),
        r == Route::EvaluateGet <==> (method@ == "GET"@ && path@ == "/evaluate"@),
        r == Route::EvaluateExport <==> (method@ == "GET"@ && path@ == "/evaluate/export"@),
        r == Route::TestGet <==> (method@ == "GET"@ && path@ == "/test"@),
        r == Route::TestInfer <==> (method@ == "POST"@ && path@ == "/test/infer"@),
        r == Route::TestImportModel <==> (method@ == "POST"@ && path@ == "/test/import-model"@),
        r is ModelDownload <==> (method@ == "GET"@ && path@ != "/train/events"@ && path@.len()
            >= 8 && path@.take(8) == "/models/"@ && path@.len() >= 9 && path@.skip(
            path@.len() - 9,
        ) == "/download"@ && !(path@ == "/"@ || path@ == "/architect"@ || path@ == "/dataset"@
            || path@ == "/train"@ || path@ == "/evaluate"@ || path@ == "/evaluate/export"@
            || path@ == "/test"@)),
        match r {
            Route::ModelDownload { name } => name@ == (if path@.len() >= 17 {
                path@.subrange(8, path@.len() - 9)
            } else {
                Seq::<char>::empty()
            }),
            _ => true,
        },
{
    proof {
        reveal_strlit("GET");
        reveal_strlit("POST");
        reveal_strlit("/");
        reveal_strlit("/train/events");
        reveal_strlit("/architect");
        reveal_strlit("/architect/save");
        reveal_strlit("/dataset");
        reveal_strlit("/dataset/upload");
        reveal_strlit("/dataset/upload-idx");
        reveal_strlit("/dataset/builtin");
        reveal_strlit("/train");
        reveal_strlit("/train/start");
        reveal_strlit("/train/stop");
        reveal_strlit("/evaluate");
        reveal_strlit("/evaluate/export");
        reveal_strlit("/test");
        reveal_strlit("/test/infer");
        reveal_strlit("/test/import-model");
        reveal_strlit("/models/");
        reveal_strlit("/download");
        assert("GET"@.len() == 3);
        assert("POST"@.len() == 4);
        assert("/"@.len() == 1);
        assert("/train/events"@.len() == 13);
        assert("/architect"@.len() == 10);
        assert("/architect/save"@.len() == 15);
        assert("/dataset"@.len() == 8);
        assert("/dataset/upload"@.len() == 15);
        assert("/dataset/upload-idx"@.len() == 19);
        assert("/dataset/builtin"@.len() == 16);
        assert("/train"@.len() == 6);
        assert("/train/start"@.len() == 12);
        assert("/train/stop"@.len() == 11);
        assert("/evaluate"@.len() == 9);
        assert("/evaluate/export"@.len() == 16);
        assert("/test"@.len() == 5);
        assert("/test/infer"@.len() == 11);
        assert("/test/import-model"@.len() == 18);
        assert("/architect/save"@[1] == 'a' && "/dataset/upload"@[1] == 'd');
        assert("/dataset/builtin"@[1] == 'd' && "/evaluate/export"@[1] == 'e');
        assert("/train/stop"@[2] == 'r' && "/test/infer"@[2] == 'e');
    }
    let is_get = str_eq(method, "GET");
    let is_post = str_eq(method, "POST");
    if is_get && str_eq(path, "/train/events") {
        return Route::SseEvents;
    }
    if is_get && str_eq(path, "/") {
        return Route::RootRedirect;
    }
    if is_get && str_eq(path, "/architect") {
        return Route::ArchitectGet;
    }
    if is_post && str_eq(path, "/architect/save") {
        return Route::ArchitectSave;
    }
    if is_get && str_eq(path, "/dataset") {
        return Route::DatasetGet;
    }
    if is_post && str_eq(path, "/dataset/upload") {
        return Route::DatasetUpload;
    }
    if is_post && str_eq(path, "/dataset/upload-idx") {
        return Route::DatasetUploadIdx;
    }
    if is_post && str_eq(path, "/dataset/builtin") {
        return Route::DatasetBuiltin;
    }
    if is_get && str_eq(path, "/train") {
        return Route::TrainGet;
    }
    if is_post && str_eq(path, "/train/start") {
        return Route::TrainStart;
    }
    if is_post && str_eq(path, "/train/stop") {
        return Route::TrainStop;
    }
    if is_get && str_eq(path, "/evaluate") {
        return Route::EvaluateGet;
    }
    if is_get && str_eq(path, "/evaluate/export") {
        return Route::EvaluateExport;
    }
    if is_get && str_eq(path, "/test") {
        return Route::TestGet;
    }
    if is_post && str_eq(path, "/test/infer") {
        return Route::TestInfer;
    }
    if is_post && str_eq(path, "/test/import-model") {
        return Route::TestImportModel;
    }
    if is_get {
        let cs = str_to_chars(path);
        let n = cs.len();
        let prefix = str_to_chars("/models/");
        let suffix = str_to_chars("/download");
        if n >= 9 && starts_with_chars(&cs, &prefix) && ends_with_chars(&cs, &suffix) {
            let name = if n >= 17 {
                chars_to_string(&slice_to_vec(slice_subrange(cs.as_slice(), 8, n - 9)))
            } else {
                let empty: Vec<char> = Vec::new();
                chars_to_string(&empty)
            };
            proof {
                if n >= 17 {
                    assert(name@ =~= path@.subrange(8, path@.len() - 9));
                }
            }
            return Route::ModelDownload { name };
        }
    }
    Route::NotFound
}

/// Whether `h` begins with `p`.
fn starts_with_chars(h: &Vec<char>, p: &Vec<char>) -> (b: bool)
    ensures
        b == (h@.len() >= p@.len() && h@.take(p@.len() as int) == p@),
{
    let n = p.len();
    if h.len() < n {
        return false;
    }
    let mut i: usize = 0;
    while i < n
        invariant
            n == p@.len(),
            n <= h@.len(),
            i <= n,
            forall|j: int| 0 <= j < i ==> h@[j] == p@[j],
        decreases n - i,
    {
        if h[i] != p[i] {
            assert(h@.take(p@.len() as int)[i as int] != p@[i as int]);
            return false;
        }
        i += 1;
    }
    proof {
        assert(h@.take(p@.len() as int) =~= p@);
    }
    true
}

/// Whether `h` ends with `p`.
fn ends_with_chars(h: &Vec<char>, p: &Vec<char>) -> (b: bool)
    ensures
        b == (h@.len() >= p@.len() && h@.skip(h@.len() - p@.len()) == p@),
{
    let n = p.len();
    let hn = h.len();
    if hn < n {
        return false;
    }
    let base = hn - n;
    let mut i: usize = 0;
    while i < n
        invariant
            n == p@.len(),
            hn == h@.len(),
            base == hn - n,
            i <= n,
            forall|j: int| 0 <= j < i ==> h@[base + j] == p@[j],
        decreases n - i,
    {
        if h[base + i] != p[i] {
            assert(h@.skip(h@.len() - p@.len())[i as int] != p@[i as int]);
            return false;
        }
        i += 1;
    }
    proof {
        assert(h@.skip(h@.len() - p@.len()) =~= p@);
    }
    true
}

} // verus!

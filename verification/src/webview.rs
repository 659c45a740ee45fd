//! Toolkit-independent constants and checks for the native webview seam.
use vstd::prelude::*;
use vstd::string::StrSliceExecFns;
use vstd::string::StringExecFns;

use crate::json::{lemma_rfind_char, rfind_char};
use crate::text::chars_of;

verus! {

/// The largest IPC message, in bytes, that is passed on to the router.
pub const MAX_IPC_BYTES: usize = 1_048_576;

/// The private scheme that serves the packaged UI.
pub const APP_SCHEME: &'static str = "lartycc";

/// The page that the webview opens first.
pub const APP_URL: &'static str = "lartycc://localhost/index.html";

/// The script that the webview runs before the UI: it installs
/// `window.lartyccHost` and `window.__lartyccHostResolve`.
pub const INITIALIZATION_SCRIPT: &'static str = r#"
(() => {
  const pending = new Map();
  const transportListeners = new Set();

  window.__lartyccHostResolve = (response) => {
    const resolve = pending.get(response.id);
    if (resolve) {
      pending.delete(response.id);
      resolve(response);
    }
    const snapshot = response?.ok && response.result?.transport
      ? response.result.transport
      : response?.ok && typeof response.result?.playing === "boolean"
        ? response.result
        : undefined;
    if (snapshot) transportListeners.forEach((listener) => listener(snapshot));
  };

  window.lartyccHost = Object.freeze({
    invoke(request) {
      return new Promise((resolve) => {
        const message = JSON.stringify(request);
        if (new TextEncoder().encode(message).byteLength > 1048576) {
          resolve({
            version: 1,
            id: request.id,
            ok: false,
            error: {
              code: "request_too_large",
              message: "host request exceeds 1048576 bytes",
            },
          });
          return;
        }
        pending.set(request.id, resolve);
        window.ipc.postMessage(message);
      });
    },
    onTransport(listener) {
      transportListeners.add(listener);
      return () => transportListeners.delete(listener);
    },
  });
})();
"#;

/// The index of the first character at or after `i` that is not `/`.
pub open spec fn skip_slashes(s: Seq<char>, i: int) -> int
    decreases s.len() - i,
{
    if 0 <= i < s.len() && s[i] == '/' {
        skip_slashes(s, i + 1)
    } else {
        i
    }
}

/// `[a, b)` is one of the `/`-separated parts of `r`.
pub open spec fn is_part(r: Seq<char>, a: int, b: int) -> bool {
    &&& 0 <= a <= b <= r.len()
    &&& (a == 0 || r[a - 1] == '/')
    &&& (b == r.len() || r[b] == '/')
    &&& forall|k: int| a <= k < b ==> r[k] != '/'
}

/// A part that may appear in an asset path: not empty, `.` or `..`.
pub open spec fn part_allowed(r: Seq<char>, a: int, b: int) -> bool {
    &&& b > a
    &&& !(b - a == 1 && r[a] == '.')
    &&& !(b - a == 2 && r[a] == '.' && r[a + 1] == '.')
}

/// A relative asset path that cannot leave the asset root: no `\`, no
/// percent-escape, and no part that is empty, `.` or `..`.
pub open spec fn safe_relative(r: Seq<char>) -> bool {
    &&& forall|k: int| 0 <= k < r.len() ==> #[trigger] r[k] != '\\' && r[k] != '%'
    &&& forall|a: int, b: int| #[trigger] is_part(r, a, b) ==> part_allowed(r, a, b)
}

/// The asset that a request path names: the path without its leading
/// slashes, `index.html` for the root, and nothing for an unsafe path.
pub open spec fn asset_path_spec(p: Seq<char>) -> Option<Seq<char>> {
    let r = p.skip(skip_slashes(p, 0));
    if r.len() == 0 {
        Some("index.html"@)
    } else if safe_relative(r) {
        Some(r)
    } else {
        None
    }
}

/// Every served asset path is relative and cannot climb out of the asset
/// directory: it is not empty, does not start with `/`, holds no `\` or `%`,
/// and none of its `/`-separated parts is empty, `.` or `..`.
pub proof fn lemma_asset_paths_stay_inside(p: Seq<char>)
    ensures
        asset_path_spec(p) matches Some(r) ==> {
            &&& r.len() > 0
            &&& r[0] != '/'
            &&& forall|k: int| 0 <= k < r.len() ==> #[trigger] r[k] != '\\' && r[k] != '%'
            &&& forall|a: int, b: int|
                #[trigger] is_part(r, a, b) ==> b > a && !(b - a == 1 && r[a] == '.') && !(b - a
                    == 2 && r[a] == '.' && r[a + 1] == '.')
        },
{
    reveal_strlit("index.html");
    let r = p.skip(skip_slashes(p, 0));
    if r.len() == 0 {
        let x = "index.html"@;
        assert forall|a: int, b: int| #[trigger] is_part(x, a, b) implies b > a && !(b - a == 1
            && x[a] == '.') && !(b - a == 2 && x[a] == '.' && x[a + 1] == '.') by {
            assert(a == 0);
            assert(b == x.len());
        }
    } else if safe_relative(r) {
        if r[0] == '/' {
            assert(is_part(r, 0, 0));
        }
    }
}

/// Whether `cs[a..b]` is an allowed path part.
fn part_ok(cs: &Vec<char>, a: usize, b: usize) -> (ok: bool)
    requires
        a <= b <= cs@.len(),
    ensures
        ok == (b > a && !(b - a == 1 && cs@[a as int] == '.') && !(b - a == 2 && cs@[a as int] == '.'
            && cs@[a + 1] == '.')),
{
    let len = b - a;
    !(len == 0 || (len == 1 && cs[a] == '.') || (len == 2 && cs[a] == '.' && cs[a + 1] == '.'))
}

/// Maps a request path to a relative asset path; refuses traversal,
/// backslashes, percent-escapes and empty parts.
pub fn asset_relative_path(uri_path: &str) -> (r: Option<&str>)
    ensures
        match asset_path_spec(uri_path@) {
            Some(v) => r matches Some(x) && x@ == v,
            None => r is None,
        },
{
    let cs = chars_of(uri_path);
    let n = cs.len();
    let mut lead: usize = 0;
    while lead < n && cs[lead] == '/'
        invariant
            n == cs@.len(),
            cs@ == uri_path@,
            lead <= n,
            skip_slashes(cs@, 0) == skip_slashes(cs@, lead as int),
        decreases n - lead,
    {
        lead += 1;
    }
    let ghost r = cs@.skip(lead as int);
    if lead == n {
        return Some("index.html");
    }
    let mut start = lead;
    let mut i = lead;
    while i < n
        invariant
            n == cs@.len(),
            cs@ == uri_path@,
            lead < n,
            lead <= start <= i <= n,
            r == cs@.skip(lead as int),
            skip_slashes(cs@, 0) == lead as int,
            start == lead || cs@[start - 1] == '/',
            forall|k: int| start <= k < i ==> cs@[k] != '/',
            forall|k: int| lead <= k < i ==> cs@[k] != '\\' && cs@[k] != '%',
            forall|a: int, b: int|
                #[trigger] is_part(r, a, b) && b + lead < start ==> part_allowed(r, a, b),
        decreases n - i,
    {
        if cs[i] == '/' {
            if !part_ok(&cs, start, i) {
                assert(is_part(r, start - lead, i - lead));
                assert(r[start - lead] == cs@[start as int]);
                assert(i - start >= 2 ==> r[start - lead + 1] == cs@[start + 1]);
                assert(!part_allowed(r, start - lead, i - lead));
                assert(!safe_relative(r));
                return None;
            }
            assert forall|a: int, b: int|
                #[trigger] is_part(r, a, b) && b + lead < i + 1 implies part_allowed(r, a, b) by {
                if b + lead == i {
                    if a + lead < start {
                        assert(r[start - 1 - lead] == '/');
                    } else if a + lead > start {
                        assert(r[a - 1] == '/');
                    }
                } else if b + lead >= start {
                    assert(r[b] == '/');
                }
            }
            start = i + 1;
        } else if cs[i] == '\\' || cs[i] == '%' {
            assert(r[i - lead] == cs@[i as int]);
            return None;
        }
        i += 1;
    }
    if !part_ok(&cs, start, n) {
        assert(is_part(r, start - lead, n - lead));
        assert(n > start ==> r[start - lead] == cs@[start as int]);
        assert(n - start >= 2 ==> r[start - lead + 1] == cs@[start + 1]);
        assert(!part_allowed(r, start - lead, n - lead));
        assert(!safe_relative(r));
        return None;
    }
    assert forall|a: int, b: int| #[trigger] is_part(r, a, b) implies part_allowed(r, a, b) by {
        if b + lead >= start {
            if b + lead < n {
                assert(r[b] == '/');
            } else if a + lead < start {
                assert(r[start - 1 - lead] == '/');
            } else if a + lead > start {
                assert(r[a - 1] == '/');
            }
        }
    }
    assert forall|k: int| 0 <= k < r.len() implies #[trigger] r[k] != '\\' && r[k] != '%' by {
        assert(r[k] == cs@[k + lead]);
    }
    Some(uri_path.substring_char(lead, n))
}

/// Where the `/`-separated part that ends at `end` starts.
pub open spec fn part_start(p: Seq<char>, end: int) -> int {
    match rfind_char(p, '/', 0, end) {
        Some(k) => k + 1,
        None => 0,
    }
}

/// The last component of `p[..end]` as `Path::components` reads it from the
/// back: empty parts and `.` parts are skipped.
pub open spec fn last_component(p: Seq<char>, end: int) -> Option<(int, int)>
    decreases end,
{
    if end < 0 || end > p.len() {
        None
    } else {
        let a = part_start(p, end);
        if a == end || (end - a == 1 && p[a] == '.') {
            if a <= 0 {
                None
            } else {
                last_component(p, a - 1)
            }
        } else {
            Some((a, end))
        }
    }
}

/// The file name of a path (`Path::file_name`): its last component, unless
/// that is `..`.
pub open spec fn file_name(p: Seq<char>) -> Option<(int, int)> {
    match last_component(p, p.len() as int) {
        Some((a, b)) => if b - a == 2 && p[a] == '.' && p[a + 1] == '.' {
            None
        } else {
            Some((a, b))
        },
        None => None,
    }
}

/// The extension of a path (`Path::extension`): what follows the last `.`
/// of the file name, unless that `.` starts the name.
pub open spec fn extension(p: Seq<char>) -> Option<Seq<char>> {
    match file_name(p) {
        None => None,
        Some((a, b)) => match rfind_char(p, '.', a, b) {
            None => None,
            Some(k) => if k == a {
                None
            } else {
                Some(p.subrange(k + 1, b))
            },
        },
    }
}

/// The code of `c` with ASCII capitals turned into small letters.
pub open spec fn ascii_lower(c: char) -> u32 {
    if 'A' <= c <= 'Z' {
        (c as u32 + 32) as u32
    } else {
        c as u32
    }
}

/// Equality up to ASCII case (`str::eq_ignore_ascii_case`).
pub open spec fn eq_ignore_ascii_case(a: Seq<char>, b: Seq<char>) -> bool {
    a.len() == b.len() && forall|i: int| 0 <= i < a.len() ==> #[trigger] ascii_lower(a[i]) == ascii_lower(b[i])
}

/// The media type served for a path, chosen by its extension.
pub open spec fn content_type_spec(p: Seq<char>) -> Seq<char> {
    match extension(p) {
        Some(e) => if eq_ignore_ascii_case(e, "html"@) {
            "text/html; charset=utf-8"@
        } else if eq_ignore_ascii_case(e, "js"@) {
            "text/javascript; charset=utf-8"@
        } else if eq_ignore_ascii_case(e, "css"@) {
            "text/css; charset=utf-8"@
        } else if eq_ignore_ascii_case(e, "svg"@) {
            "image/svg+xml"@
        } else if eq_ignore_ascii_case(e, "png"@) {
            "image/png"@
        } else if eq_ignore_ascii_case(e, "woff2"@) {
            "font/woff2"@
        } else {
            "application/octet-stream"@
        },
        None => "application/octet-stream"@,
    }
}

/// The last index in `[lo, hi)` that holds `c`.
fn rfind_in(cs: &Vec<char>, c: char, lo: usize, hi: usize) -> (r: Option<usize>)
    requires
        hi <= cs@.len(),
    ensures
        match rfind_char(cs@, c, lo as int, hi as int) {
            Some(k) => r matches Some(i) && i == k,
            None => r is None,
        },
{
    let mut j = hi;
    while j > lo
        invariant
            j <= hi <= cs@.len(),
            rfind_char(cs@, c, lo as int, hi as int) == rfind_char(cs@, c, lo as int, j as int),
        decreases j,
    {
        if cs[j - 1] == c {
            return Some(j - 1);
        }
        j -= 1;
    }
    None
}

/// The last component of `cs[..end]`.
fn find_last_component(cs: &Vec<char>, end: usize) -> (r: Option<(usize, usize)>)
    requires
        end <= cs@.len(),
    ensures
        match last_component(cs@, end as int) {
            Some((a, b)) => r matches Some((x, y)) && x == a && y == b && 0 <= a <= b <= cs@.len(),
            None => r is None,
        },
{
    let mut e = end;
    loop
        invariant
            e <= end <= cs@.len(),
            last_component(cs@, end as int) == last_component(cs@, e as int),
        decreases e,
    {
        let a = match rfind_in(cs, '/', 0, e) {
            Some(k) => {
                proof { lemma_rfind_char(cs@, '/', 0, e as int); }
                k + 1
            },
            None => 0,
        };
        if a == e || (e - a == 1 && cs[a] == '.') {
            if a == 0 {
                return None;
            }
            e = a - 1;
        } else {
            return Some((a, e));
        }
    }
}

/// Whether `cs[lo..hi]` equals `word` up to ASCII case.
fn ext_is(cs: &Vec<char>, lo: usize, hi: usize, word: &str) -> (r: bool)
    requires
        lo <= hi <= cs@.len(),
    ensures
        r == eq_ignore_ascii_case(cs@.subrange(lo as int, hi as int), word@),
{
    let w = chars_of(word);
    let ghost e = cs@.subrange(lo as int, hi as int);
    if hi - lo != w.len() {
        return false;
    }
    let mut i: usize = 0;
    while i < w.len()
        invariant
            hi - lo == w@.len(),
            lo <= hi <= cs@.len(),
            w@ == word@,
            e == cs@.subrange(lo as int, hi as int),
            i <= w@.len(),
            forall|k: int| 0 <= k < i ==> #[trigger] ascii_lower(e[k]) == ascii_lower(w@[k]),
        decreases w.len() - i,
    {
        let a = cs[lo + i];
        let b = w[i];
        let la = if 'A' <= a && a <= 'Z' { a as u32 + 32 } else { a as u32 };
        let lb = if 'A' <= b && b <= 'Z' { b as u32 + 32 } else { b as u32 };
        assert(e[i as int] == a);
        if la != lb {
            assert(ascii_lower(e[i as int]) != ascii_lower(w@[i as int]));
            return false;
        }
        i += 1;
    }
    true
}

/// The media type served for an asset path, chosen by its extension
/// regardless of ASCII case.
pub fn content_type(path: &str) -> (r: &'static str)
    ensures
        r@ == content_type_spec(path@),
{
    let cs = chars_of(path);
    let n = cs.len();
    let (a, b) = match find_last_component(&cs, n) {
        Some(range) => range,
        None => return "application/octet-stream",
    };
    if b - a == 2 && cs[a] == '.' && cs[a + 1] == '.' {
        return "application/octet-stream";
    }
    let k = match rfind_in(&cs, '.', a, b) {
        Some(k) => k,
        None => return "application/octet-stream",
    };
    proof { lemma_rfind_char(cs@, '.', a as int, b as int); }
    if k == a {
        return "application/octet-stream";
    }
    if ext_is(&cs, k + 1, b, "html") {
        "text/html; charset=utf-8"
    } else if ext_is(&cs, k + 1, b, "js") {
        "text/javascript; charset=utf-8"
    } else if ext_is(&cs, k + 1, b, "css") {
        "text/css; charset=utf-8"
    } else if ext_is(&cs, k + 1, b, "svg") {
        "image/svg+xml"
    } else if ext_is(&cs, k + 1, b, "png") {
        "image/png"
    } else if ext_is(&cs, k + 1, b, "woff2") {
        "font/woff2"
    } else {
        "application/octet-stream"
    }
}

/// Whether `s` starts with `prefix`.
pub open spec fn has_prefix(s: Seq<char>, prefix: Seq<char>) -> bool {
    prefix.len() <= s.len() && s.subrange(0, prefix.len() as int) == prefix
}

/// Whether `s` starts with `prefix`.
fn starts_with(s: &Vec<char>, prefix: &str) -> (r: bool)
    ensures
        r == has_prefix(s@, prefix@),
{
    let p = chars_of(prefix);
    if p.len() > s.len() {
        return false;
    }
    let mut i: usize = 0;
    while i < p.len()
        invariant
            p@ == prefix@,
            p@.len() <= s@.len(),
            i <= p@.len(),
            forall|k: int| 0 <= k < i ==> s@[k] == p@[k],
        decreases p.len() - i,
    {
        if s[i] != p[i] {
            assert(s@.subrange(0, p@.len() as int)[i as int] != p@[i as int]);
            return false;
        }
        i += 1;
    }
    assert(s@.subrange(0, p@.len() as int) =~= p@);
    true
}

/// Whether the webview may navigate to `url`: only pages of the packaged UI.
pub fn is_app_url(url: String) -> (r: bool)
    ensures
        r == (has_prefix(url@, "lartycc://localhost/"@) || has_prefix(url@, "http://lartycc.localhost/"@)),
{
    let cs = chars_of(url.as_str());
    starts_with(&cs, "lartycc://localhost/") || starts_with(&cs, "http://lartycc.localhost/")
}

/// The message that an IPC body becomes: the body itself when it is at most
/// `MAX_IPC_BYTES` bytes of UTF-8, otherwise `{`, which the router answers
/// as an invalid request.
pub fn ipc_request_body(body: String) -> (r: String)
    requires
        vstd::utf8::encode_utf8(body@).len() <= usize::MAX,
    ensures
        vstd::utf8::encode_utf8(body@).len() <= MAX_IPC_BYTES ==> r@ == body@,
        vstd::utf8::encode_utf8(body@).len() > MAX_IPC_BYTES ==> r@ == "{"@,
{
    if body.as_str().len() <= MAX_IPC_BYTES {
        body
    } else {
        String::from_str("{")
    }
}

/// The text that `serde_json` writes for the JSON value in `text`, or `None`
/// when `text` is not JSON. It names the result of two calls of that crate,
/// the parse (`serde_json::from_str` into a `Value`) and the printing of the
/// parsed value; nothing more is known of it here.
pub uninterp spec fn json_compact(text: Seq<char>) -> Option<Seq<char>>;

#[verifier::external_type_specification]
#[verifier::external_body]
pub struct ExJsonError(serde_json::Error);

/// Parses `text` with `serde_json::from_str` into a `serde_json::Value` and
/// writes the value back with its `Display` impl (compact JSON). Claimed: the
/// result depends on `text` alone, and an error comes exactly when the text
/// does not parse; which texts parse, and what the compact text is, are left
/// to `serde_json` and not stated.
#[verifier::external_body]
fn compact_json(text: &str) -> (r: Result<String, serde_json::Error>)
    ensures
        match json_compact(text@) {
            Some(c) => r matches Ok(s) && s@ == c,
            None => r is Err,
        },
{
    match serde_json::from_str::<serde_json::Value>(text) {
        Ok(value) => Ok(value.to_string()),
        Err(error) => Err(error),
    }
}

/// Why no response script was built.
#[derive(Clone, Copy, Debug, PartialEq, Eq, Structural)]
pub enum ScriptError {
    /// The response was not JSON.
    InvalidJson,
}

/// The JavaScript call that hands a (compact) JSON response to the page.
pub open spec fn resolution_call_spec(json: Seq<char>) -> Seq<char> {
    "window.__lartyccHostResolve?.("@ + json + ");"@
}

/// Builds the single JavaScript call that returns a response to the page.
pub fn resolution_call(json: &str) -> (r: String)
    ensures
        r@ == resolution_call_spec(json@),
{
    let mut out = String::from_str("window.__lartyccHostResolve?.(");
    out.append(json);
    out.append(");");
    out
}

/// Builds the single JavaScript call used to return a native response; the
/// response is parsed as JSON first and written back compactly, so malformed
/// content is never embedded as code.
pub fn resolution_script(response_json: &str) -> (r: Result<String, ScriptError>)
    ensures
        match json_compact(response_json@) {
            Some(c) => r matches Ok(s) && s@ == resolution_call_spec(c),
            None => r == Err::<String, ScriptError>(ScriptError::InvalidJson),
        },
{
    match compact_json(response_json) {
        Ok(compact) => Ok(resolution_call(compact.as_str())),
        Err(_) => Err(ScriptError::InvalidJson),
    }
}

/// The media type of the plain-text bodies of refused asset requests.
pub const PLAIN_TEXT_TYPE: &'static str = "text/plain; charset=utf-8";

/// Why an asset request is refused.
#[derive(Clone, Copy, Debug, PartialEq, Eq, Structural)]
pub enum AssetFailure {
    /// The request path is not a safe relative asset path.
    InvalidPath,
    /// No file answers to the path.
    NotFound,
    /// The file lies outside the asset root, or is not a regular file.
    Forbidden,
    /// The file could not be read.
    ReadFailed,
}

/// The HTTP status of a refused asset request.
pub open spec fn asset_failure_status(f: AssetFailure) -> u16 {
    match f {
        AssetFailure::InvalidPath => 400,
        AssetFailure::NotFound => 404,
        AssetFailure::Forbidden => 403,
        AssetFailure::ReadFailed => 500,
    }
}

/// The plain-text body of a refused asset request.
pub open spec fn asset_failure_body(f: AssetFailure) -> Seq<char> {
    match f {
        AssetFailure::InvalidPath => "invalid path"@,
        AssetFailure::NotFound => "not found"@,
        AssetFailure::Forbidden => "forbidden"@,
        AssetFailure::ReadFailed => "asset read failed"@,
    }
}

impl AssetFailure {
    /// The HTTP status of the refusal.
    pub fn status(&self) -> (s: u16)
        ensures
            s == asset_failure_status(*self),
    {
        match self {
            AssetFailure::InvalidPath => 400,
            AssetFailure::NotFound => 404,
            AssetFailure::Forbidden => 403,
            AssetFailure::ReadFailed => 500,
        }
    }

    /// The plain-text body of the refusal.
    pub fn body(&self) -> (b: &'static str)
        ensures
            b@ == asset_failure_body(*self),
    {
        match self {
            AssetFailure::InvalidPath => "invalid path",
            AssetFailure::NotFound => "not found",
            AssetFailure::Forbidden => "forbidden",
            AssetFailure::ReadFailed => "asset read failed",
        }
    }
}

/// Whether a resolved asset may be served: it must lie under the asset
/// root and be a regular file.
pub fn asset_access(inside_root: bool, is_file: bool) -> (r: Result<(), AssetFailure>)
    ensures
        r == (if inside_root && is_file {
            Ok::<(), AssetFailure>(())
        } else {
            Err(AssetFailure::Forbidden)
        }),
{
    if inside_root && is_file {
        Ok(())
    } else {
        Err(AssetFailure::Forbidden)
    }
}

/// The headers of every asset response, after its media type: no type
/// sniffing, no caching, and a content security policy that admits only
/// the packaged scripts, styles and images and blocks network connections.
pub open spec fn asset_headers_spec(mime: Seq<char>) -> Seq<(Seq<char>, Seq<char>)> {
    seq![
        ("content-type"@, mime),
        ("x-content-type-options"@, "nosniff"@),
        ("cache-control"@, "no-store"@),
        (
            "content-security-policy"@,
            "default-src 'self'; script-src 'self'; style-src 'self' 'unsafe-inline'; img-src 'self' data:; connect-src 'none'; object-src 'none'; base-uri 'none'; frame-ancestors 'none'"@,
        ),
    ]
}

/// The headers of an asset response of media type `mime`, in order.
pub fn asset_headers(mime: &'static str) -> (h: Vec<(&'static str, &'static str)>)
    ensures
        h@.len() == 4,
        forall|i: int|
            0 <= i < 4 ==> (#[trigger] h@[i]).0@ == asset_headers_spec(mime@)[i].0 && h@[i].1@
                == asset_headers_spec(mime@)[i].1,
{
    let mut h: Vec<(&'static str, &'static str)> = Vec::new();
    h.push(("content-type", mime));
    h.push(("x-content-type-options", "nosniff"));
    h.push(("cache-control", "no-store"));
    h.push(
        (
            "content-security-policy",
            "default-src 'self'; script-src 'self'; style-src 'self' 'unsafe-inline'; img-src 'self' data:; connect-src 'none'; object-src 'none'; base-uri 'none'; frame-ancestors 'none'",
        ),
    );
    h
}


proof fn lemma_rfind_last(s: Seq<char>, c: char, lo: int, hi: int, k: int)
    requires
        0 <= lo <= k < hi <= s.len(),
        s[k] == c,
        forall|j: int| k < j < hi ==> s[j] != c,
    ensures
        rfind_char(s, c, lo, hi) == Some(k),
    decreases hi - lo,
{
    if hi - 1 > k {
        lemma_rfind_last(s, c, lo, hi - 1, k);
    }
}

proof fn lemma_rfind_absent(s: Seq<char>, c: char, lo: int, hi: int)
    requires
        0 <= lo,
        hi <= s.len(),
        forall|j: int| lo <= j < hi ==> s[j] != c,
    ensures
        rfind_char(s, c, lo, hi) is None,
    decreases hi - lo,
{
    if hi > lo {
        lemma_rfind_absent(s, c, lo, hi - 1);
    }
}

/// The extension of a name is the text after its last `.`: for a stem that
/// is not empty and holds no `/`, and a text `e` with no `.` or `/`, the
/// extension of `stem.e` is `e` (the one exception is `..`, which is no file
/// name at all).
pub proof fn lemma_extension_after_last_dot(stem: Seq<char>, e: Seq<char>)
    requires
        stem.len() > 0,
        forall|i: int| 0 <= i < stem.len() ==> #[trigger] stem[i] != '/',
        forall|i: int| 0 <= i < e.len() ==> #[trigger] e[i] != '.' && e[i] != '/',
        !(stem == seq!['.'] && e.len() == 0),
    ensures
        extension(stem + seq!['.'] + e) == Some(e),
{
    let p = stem + seq!['.'] + e;
    let n = p.len() as int;
    let m = stem.len() as int;
    assert forall|j: int| 0 <= j < n implies p[j] != '/' by {
        if j < m {
            assert(p[j] == stem[j]);
        } else if j > m {
            assert(p[j] == e[j - m - 1]);
        }
    }
    lemma_rfind_absent(p, '/', 0, n);
    assert(part_start(p, n) == 0);
    assert(last_component(p, n) == Some((0int, n)));
    if n == 2 {
        assert(stem == seq!['.'] ==> false) by {
            if stem =~= seq![stem[0]] && stem[0] == '.' {
                assert(e.len() == 0);
            }
        }
        assert(!(p[0] == '.' && p[1] == '.')) by {
            if p[0] == '.' && p[1] == '.' {
                assert(stem =~= seq!['.']);
            }
        }
    }
    assert(file_name(p) == Some((0int, n)));
    assert forall|j: int| m < j < n implies p[j] != '.' by {
        assert(p[j] == e[j - m - 1]);
    }
    lemma_rfind_last(p, '.', 0, n, m);
    assert(p.subrange(m + 1, n) =~= e);
}

/// The media type depends only on the text after the last `.` of the file
/// name: `stem.e` is served as `x.e` is, for any non-empty stem without `/`
/// and any `e` without `.` or `/`; so every name ending in `.js` is served
/// as JavaScript, `app.min.js` included.
pub proof fn lemma_media_type_by_last_extension(stem: Seq<char>, e: Seq<char>)
    requires
        stem.len() > 0,
        forall|i: int| 0 <= i < stem.len() ==> #[trigger] stem[i] != '/',
        forall|i: int| 0 <= i < e.len() ==> #[trigger] e[i] != '.' && e[i] != '/',
    ensures
        content_type_spec(stem + seq!['.'] + e) == content_type_spec("x."@ + e),
{
    reveal_strlit("x.");
    let x = seq!['x'];
    assert("x."@ =~= x + seq!['.']);
    assert(x + seq!['.'] + e =~= "x."@ + e);
    assert(x[0] == 'x');
    assert(x != seq!['.']) by {
        if x == seq!['.'] {
            assert(x[0] == seq!['.'][0]);
        }
    }
    lemma_extension_after_last_dot(x, e);
    if stem == seq!['.'] && e.len() == 0 {
        let p = stem + seq!['.'] + e;
        assert(p =~= seq!['.', '.']);
        lemma_rfind_absent(p, '/', 0, 2);
        assert(part_start(p, 2) == 0);
        assert(last_component(p, 2) == Some((0int, 2int)));
        assert(extension(p) is None);
        reveal_strlit("html");
        reveal_strlit("js");
        reveal_strlit("css");
        reveal_strlit("svg");
        reveal_strlit("png");
        reveal_strlit("woff2");
    } else {
        lemma_extension_after_last_dot(stem, e);
    }
}

} // verus!

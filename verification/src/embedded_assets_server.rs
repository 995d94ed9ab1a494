//! The private loopback HTTP server that hands the frontend assets embedded
//! in the executable to the webview: request reading limits, request-line
//! parsing, path mapping (with traversal rejected), routing and response
//! headers. Accepting connections and moving bytes is the application's.

use vstd::prelude::*;

use crate::text::{string_of, words, words_of};

verus! {

/// The host of the asset server.
pub const LOOPBACK_ORIGIN: &'static str = "http://127.0.0.1:";

/// The document served for `/`.
pub const DEFAULT_DOCUMENT: &'static str = "dashboard.html";

/// A request is read until its headers end or it reaches this many bytes.
pub const MAX_REQUEST_BYTES: usize = 8192;

/// Bytes read from the connection at a time.
pub const READ_CHUNK_BYTES: usize = 2048;

/// The decimal digit character of `d` (`0 <= d < 10`).
pub open spec fn digit_char(d: nat) -> char {
    ((48 + d) as u8) as char
}

/// The decimal representation of `n`, without leading zeros.
pub open spec fn decimal(n: nat) -> Seq<char>
    decreases n,
{
    if n < 10 {
        seq![digit_char(n)]
    } else {
        decimal(n / 10).push(digit_char(n % 10))
    }
}

/// The decimal representation of `n`.
pub fn decimal_string(n: u64) -> (r: String)
    ensures
        r@ == decimal(n as nat),
    decreases n,
{
    let d = ((48u64 + n % 10) as u8) as char;
    if n < 10 {
        let mut s = String::new();
        s.push(d);
        s
    } else {
        let mut s = decimal_string(n / 10);
        s.push(d);
        s
    }
}

/// The server's address: its loopback port.
pub struct EmbeddedAssetsServer {
    port: u16,
}

impl EmbeddedAssetsServer {
    pub closed spec fn port(&self) -> u16 {
        self.port
    }

    /// The server listening on loopback port `port`.
    pub fn new(port: u16) -> (r: Self)
        ensures
            r.port() == port,
    {
        EmbeddedAssetsServer { port }
    }

    /// The URL of an asset: `http://127.0.0.1:<port>/<asset_path>`.
    pub fn url_for(&self, asset_path: &str) -> (r: String)
        ensures
            r@ == LOOPBACK_ORIGIN@ + decimal(self.port() as nat) + "/"@ + asset_path@,
    {
        let mut s = String::from_str(LOOPBACK_ORIGIN);
        let p = decimal_string(self.port as u64);
        s.append(p.as_str());
        s.append("/");
        s.append(asset_path);
        s
    }

    /// The URL pattern that covers every asset of this server, and no other
    /// port: `http://127.0.0.1:<port>/*`.
    pub fn url_pattern(&self) -> (r: String)
        ensures
            r@ == LOOPBACK_ORIGIN@ + decimal(self.port() as nat) + "/*"@,
    {
        let mut s = String::from_str(LOOPBACK_ORIGIN);
        let p = decimal_string(self.port as u64);
        s.append(p.as_str());
        s.append("/*");
        s
    }
}

/// The part of a request target before its query (`?`).
pub open spec fn before_query(s: Seq<char>) -> Seq<char>
    decreases s.len(),
{
    if s.len() == 0 {
        s
    } else if s[0] == '?' {
        Seq::empty()
    } else {
        seq![s[0]] + before_query(s.drop_first())
    }
}

/// `s` without its leading `/`s.
pub open spec fn strip_slashes(s: Seq<char>) -> Seq<char>
    decreases s.len(),
{
    if s.len() > 0 && s[0] == '/' {
        strip_slashes(s.drop_first())
    } else {
        s
    }
}

/// The `/`-separated segments of `s` (one more than it has `/`s).
pub open spec fn segments(s: Seq<char>) -> Seq<Seq<char>>
    decreases s.len(),
{
    if s.len() == 0 {
        seq![Seq::empty()]
    } else {
        let prev = segments(s.drop_last());
        if s.last() == '/' {
            prev.push(Seq::empty())
        } else {
            prev.update(prev.len() - 1, prev.last().push(s.last()))
        }
    }
}

/// A path segment that is empty, `.` or `..`.
pub open spec fn bad_segment(seg: Seq<char>) -> bool {
    seg.len() == 0 || seg == "."@ || seg == ".."@
}

/// The path a request target names: the target without its query and
/// leading `/`s, `dashboard.html` when that is empty.
pub open spec fn target_path(raw: Seq<char>) -> Seq<char> {
    let p0 = strip_slashes(before_query(raw));
    if p0.len() == 0 {
        DEFAULT_DOCUMENT@
    } else {
        p0
    }
}

/// A path that stays inside the asset tree: no `\` and no empty, `.` or
/// `..` segment.
pub open spec fn path_ok(p: Seq<char>) -> bool {
    &&& !p.contains('\\')
    &&& forall|i: int| 0 <= i < segments(p).len() ==> !bad_segment(#[trigger] segments(p)[i])
}

/// The asset a request target names (see `target_path`); `None` when that
/// path leaves the asset tree (see `path_ok`).
pub open spec fn asset_of(raw: Seq<char>) -> Option<Seq<char>> {
    if path_ok(target_path(raw)) {
        Some(target_path(raw))
    } else {
        None
    }
}

proof fn lemma_before_query(s: Seq<char>, q: int)
    requires
        0 <= q <= s.len(),
        q < s.len() ==> s[q] == '?',
        forall|j: int| 0 <= j < q ==> #[trigger] s[j] != '?',
    ensures
        before_query(s) == s.subrange(0, q),
    decreases q,
{
    if q == 0 {
        if s.len() > 0 {
            assert(s.subrange(0, 0) =~= Seq::<char>::empty());
        }
    } else {
        assert(s[0] != '?');
        lemma_before_query(s.drop_first(), q - 1);
        assert(s.subrange(0, q) =~= seq![s[0]] + s.drop_first().subrange(0, q - 1));
    }
}

proof fn lemma_strip_slashes(s: Seq<char>, a: int)
    requires
        0 <= a <= s.len(),
        a < s.len() ==> s[a] != '/',
        forall|j: int| 0 <= j < a ==> #[trigger] s[j] == '/',
    ensures
        strip_slashes(s) == s.subrange(a, s.len() as int),
    decreases a,
{
    if a == 0 {
        assert(s.subrange(0, s.len() as int) =~= s);
    } else {
        assert(s[0] == '/');
        lemma_strip_slashes(s.drop_first(), a - 1);
        assert(s.drop_first().subrange(a - 1, s.len() - 1) =~= s.subrange(a, s.len() as int));
    }
}

/// Whether the current segment `seg` is empty, `.` or `..`.
fn is_bad_segment(seg: &Vec<char>) -> (r: bool)
    ensures
        r == bad_segment(seg@),
{
    proof {
        reveal_strlit(".");
        reveal_strlit("..");
    }
    if seg.len() == 0 {
        return true;
    }
    if seg.len() == 1 {
        let r = seg[0] == '.';
        assert(r ==> seg@ =~= "."@);
        return r;
    }
    if seg.len() == 2 {
        let r = seg[0] == '.' && seg[1] == '.';
        assert(r ==> seg@ =~= ".."@);
        return r;
    }
    false
}

/// Whether a path leaves the asset tree (see `path_ok`).
fn path_rejected(p: &Vec<char>) -> (r: bool)
    ensures
        r == !path_ok(p@),
{
    let mut seg: Vec<char> = Vec::new();
    let mut bad = false;
    let mut i: usize = 0;
    while i < p.len()
        invariant
            i <= p@.len(),
            segments(p@.take(i as int)).len() > 0,
            seg@ == segments(p@.take(i as int)).last(),
            bad == (p@.take(i as int).contains('\\') || exists|k: int|
                0 <= k < segments(p@.take(i as int)).len() - 1 && bad_segment(#[trigger] segments(p@.take(i as int))[k])),
        decreases p@.len() - i,
    {
        let c = p[i];
        let ghost pre = p@.take(i as int);
        let ghost post = p@.take(i + 1);
        proof {
            assert(post.drop_last() =~= pre);
            assert(post.last() == c);
        }
        if c == '/' {
            let b = is_bad_segment(&seg);
            proof {
                let sp = segments(pre);
                let sq = segments(post);
                assert(sq == sp.push(Seq::empty()));
                assert(post.contains('\\') == pre.contains('\\')) by {
                    if post.contains('\\') {
                        let k = choose|k: int| 0 <= k < post.len() && post[k] == '\\';
                        assert(pre[k] == '\\');
                    }
                    if pre.contains('\\') {
                        let k = choose|k: int| 0 <= k < pre.len() && pre[k] == '\\';
                        assert(post[k] == '\\');
                    }
                }
                assert((exists|k: int| 0 <= k < sq.len() - 1 && bad_segment(#[trigger] sq[k])) == ((exists|k: int|
                    0 <= k < sp.len() - 1 && bad_segment(#[trigger] sp[k])) || bad_segment(sp.last()))) by {
                    if exists|k: int| 0 <= k < sq.len() - 1 && bad_segment(#[trigger] sq[k]) {
                        let k = choose|k: int| 0 <= k < sq.len() - 1 && bad_segment(#[trigger] sq[k]);
                        assert(sq[k] == sp[k]);
                    }
                    if exists|k: int| 0 <= k < sp.len() - 1 && bad_segment(#[trigger] sp[k]) {
                        let k = choose|k: int| 0 <= k < sp.len() - 1 && bad_segment(#[trigger] sp[k]);
                        assert(sq[k] == sp[k]);
                    }
                    if bad_segment(sp.last()) {
                        assert(sq[sp.len() - 1] == sp.last());
                    }
                }
            }
            bad = bad || b;
            seg = Vec::new();
        } else {
            proof {
                let sp = segments(pre);
                let sq = segments(post);
                assert(sq == sp.update(sp.len() - 1, sp.last().push(c)));
                assert((exists|k: int| 0 <= k < sq.len() - 1 && bad_segment(#[trigger] sq[k])) == (exists|k: int|
                    0 <= k < sp.len() - 1 && bad_segment(#[trigger] sp[k]))) by {
                    if exists|k: int| 0 <= k < sq.len() - 1 && bad_segment(#[trigger] sq[k]) {
                        let k = choose|k: int| 0 <= k < sq.len() - 1 && bad_segment(#[trigger] sq[k]);
                        assert(sq[k] == sp[k]);
                    }
                    if exists|k: int| 0 <= k < sp.len() - 1 && bad_segment(#[trigger] sp[k]) {
                        let k = choose|k: int| 0 <= k < sp.len() - 1 && bad_segment(#[trigger] sp[k]);
                        assert(sq[k] == sp[k]);
                    }
                }
                assert(post.contains('\\') == (pre.contains('\\') || c == '\\')) by {
                    if post.contains('\\') {
                        let k = choose|k: int| 0 <= k < post.len() && post[k] == '\\';
                        if k < pre.len() {
                            assert(pre[k] == '\\');
                        }
                    }
                    if pre.contains('\\') {
                        let k = choose|k: int| 0 <= k < pre.len() && pre[k] == '\\';
                        assert(post[k] == '\\');
                    }
                    if c == '\\' {
                        assert(post[i as int] == '\\');
                    }
                }
            }
            if c == '\\' {
                bad = true;
            }
            seg.push(c);
        }
        i = i + 1;
    }
    let last_bad = is_bad_segment(&seg);
    proof {
        assert(p@.take(p@.len() as int) =~= p@);
        let sp = segments(p@);
        assert((exists|k: int| 0 <= k < sp.len() && bad_segment(#[trigger] sp[k])) == ((exists|k: int|
            0 <= k < sp.len() - 1 && bad_segment(#[trigger] sp[k])) || bad_segment(sp.last()))) by {
            if exists|k: int| 0 <= k < sp.len() && bad_segment(#[trigger] sp[k]) {
                let k = choose|k: int| 0 <= k < sp.len() && bad_segment(#[trigger] sp[k]);
                if k == sp.len() - 1 {
                    assert(bad_segment(sp.last()));
                }
            }
        }
    }
    bad || last_bad
}

/// Maps a request target to the asset it names (see `asset_of`); `None`
/// rejects it.
pub fn asset_path(raw_path: &str) -> (r: Option<String>)
    ensures
        match r {
            Some(s) => asset_of(raw_path@) == Some(s@),
            None => asset_of(raw_path@) is None,
        },
{
    let raw = crate::text::chars_of(raw_path);
    let mut q: usize = 0;
    while q < raw.len() && raw[q] != '?'
        invariant
            q <= raw@.len(),
            forall|j: int| 0 <= j < q ==> #[trigger] raw@[j] != '?',
        decreases raw@.len() - q,
    {
        q = q + 1;
    }
    proof {
        lemma_before_query(raw@, q as int);
    }
    let mut a: usize = 0;
    while a < q && raw[a] == '/'
        invariant
            a <= q <= raw@.len(),
            forall|j: int| 0 <= j < a ==> #[trigger] raw@[j] == '/',
        decreases q - a,
    {
        a = a + 1;
    }
    let ghost bq = raw@.subrange(0, q as int);
    proof {
        assert forall|j: int| 0 <= j < a implies #[trigger] bq[j] == '/' by {
            assert(bq[j] == raw@[j]);
        }
        if a < q {
            assert(bq[a as int] == raw@[a as int]);
        }
        lemma_strip_slashes(bq, a as int);
    }
    let mut p: Vec<char> = Vec::new();
    let mut i: usize = a;
    while i < q
        invariant
            a <= i <= q <= raw@.len(),
            p@ == raw@.subrange(a as int, i as int),
        decreases q - i,
    {
        p.push(raw[i]);
        i = i + 1;
        assert(p@ =~= raw@.subrange(a as int, i as int));
    }
    assert(bq.subrange(a as int, bq.len() as int) =~= p@);
    if p.len() == 0 {
        p = crate::text::chars_of(DEFAULT_DOCUMENT);
    }
    assert(p@ == target_path(raw_path@));
    if path_rejected(&p) {
        return None;
    }
    Some(string_of(&p))
}

/// A path that `asset_path` accepts stays inside the asset tree: it is not
/// empty, does not start with `/`, and holds no `\` and no empty, `.` or
/// `..` segment.
pub proof fn lemma_asset_path_confined(raw: Seq<char>)
    ensures
        asset_of(raw) matches Some(p) ==> {
            &&& p.len() > 0
            &&& p[0] != '/'
            &&& path_ok(p)
        },
{
    if asset_of(raw) is Some {
        let p = target_path(raw);
        let p0 = strip_slashes(before_query(raw));
        lemma_segments_first(p);
        lemma_strip_slashes_head(before_query(raw));
        if p0.len() == 0 {
            reveal_strlit("dashboard.html");
            assert(p.len() > 0);
        }
        assert(!bad_segment(segments(p)[0]));
    }
}

/// What `strip_slashes` leaves does not start with `/`.
proof fn lemma_strip_slashes_head(s: Seq<char>)
    ensures
        strip_slashes(s).len() > 0 ==> strip_slashes(s)[0] != '/',
    decreases s.len(),
{
    if s.len() > 0 && s[0] == '/' {
        lemma_strip_slashes_head(s.drop_first());
    }
}

/// The first segment of a path that starts with `/` is empty.
proof fn lemma_segments_first(s: Seq<char>)
    ensures
        segments(s).len() >= 1,
        s.len() > 0 && s[0] == '/' ==> segments(s).len() >= 2 && segments(s)[0].len() == 0,
    decreases s.len(),
{
    if s.len() > 0 {
        lemma_segments_first(s.drop_last());
        if s.len() > 1 {
            assert(s.drop_last()[0] == s[0]);
        } else {
            assert(s.drop_last().len() == 0);
        }
    }
}

/// Whether the request bytes hold the blank line that ends the headers.
pub open spec fn has_header_end(s: Seq<u8>) -> bool {
    exists|i: int|
        0 <= i && i + 4 <= s.len() && #[trigger] s[i] == 13u8 && s[i + 1] == 10u8 && s[i + 2] == 13u8 && s[i + 3]
            == 10u8
}

/// Whether the request read so far holds the end of its headers (`\r\n\r\n`).
pub fn headers_complete(request: &Vec<u8>) -> (r: bool)
    ensures
        r == has_header_end(request@),
{
    let n = request.len();
    if n < 4 {
        return false;
    }
    let mut i: usize = 0;
    while i <= n - 4
        invariant
            n == request@.len(),
            4 <= n,
            i <= n - 3,
            forall|j: int|
                0 <= j < i ==> !(#[trigger] request@[j] == 13u8 && request@[j + 1] == 10u8 && request@[j + 2] == 13u8
                    && request@[j + 3] == 10u8),
        decreases n - i,
    {
        if request[i] == 13 && request[i + 1] == 10 && request[i + 2] == 13 && request[i + 3] == 10 {
            return true;
        }
        i = i + 1;
    }
    false
}

/// What `String::from_utf8_lossy` decodes of these bytes (malformed
/// sequences replaced by U+FFFD).
pub uninterp spec fn utf8_lossy(bytes: Seq<u8>) -> Seq<char>;

/// `String::from_utf8_lossy`: the bytes decoded as UTF-8, malformed
/// sequences replaced; on valid UTF-8 it is the plain decoding, as its
/// documentation says.
#[verifier::external_body]
fn decode_lossy(bytes: &[u8]) -> (r: String)
    ensures
        r@ == utf8_lossy(bytes@),
        vstd::utf8::valid_utf8(bytes@) ==> r@ == vstd::utf8::decode_utf8(bytes@),
{
    String::from_utf8_lossy(bytes).into_owned()
}

/// The text before the first `\n` (all of it when there is none).
pub open spec fn upto_newline(s: Seq<char>) -> Seq<char>
    decreases s.len(),
{
    if s.len() == 0 {
        s
    } else if s[0] == '\n' {
        Seq::empty()
    } else {
        seq![s[0]] + upto_newline(s.drop_first())
    }
}

/// The first line of a text as `str::lines` yields it: up to the first
/// `\n`, less a `\r` before that `\n`; `None` for the empty text.
pub open spec fn first_line(s: Seq<char>) -> Option<Seq<char>> {
    if s.len() == 0 {
        None
    } else {
        let l = upto_newline(s);
        if s.contains('\n') && l.len() > 0 && l.last() == '\r' {
            Some(l.drop_last())
        } else {
            Some(l)
        }
    }
}

/// The method and target of an HTTP request: the first two words of its
/// first line; `None` when there are fewer.
pub open spec fn request_target(text: Seq<char>) -> Option<(Seq<char>, Seq<char>)> {
    match first_line(text) {
        Some(l) => if words(l, false).len() >= 2 {
            Some((words(l, false)[0], words(l, false)[1]))
        } else {
            None
        },
        None => None,
    }
}

proof fn lemma_upto_newline(s: Seq<char>, q: int)
    requires
        0 <= q <= s.len(),
        q < s.len() ==> s[q] == '\n',
        forall|j: int| 0 <= j < q ==> #[trigger] s[j] != '\n',
    ensures
        upto_newline(s) == s.subrange(0, q),
        s.contains('\n') == (q < s.len()),
    decreases q,
{
    if q == 0 {
        if s.len() > 0 {
            assert(s.subrange(0, 0) =~= Seq::<char>::empty());
        }
    } else {
        assert(s[0] != '\n');
        lemma_upto_newline(s.drop_first(), q - 1);
        assert(s.subrange(0, q) =~= seq![s[0]] + s.drop_first().subrange(0, q - 1));
        if s.contains('\n') {
            let k = choose|k: int| 0 <= k < s.len() && s[k] == '\n';
            assert(s.drop_first()[k - 1] == '\n');
        }
        if s.drop_first().contains('\n') {
            let k = choose|k: int| 0 <= k < s.drop_first().len() && s.drop_first()[k] == '\n';
            assert(s[k + 1] == '\n');
        }
    }
}

/// The first line of a text (see `first_line`).
fn first_line_chars(s: &Vec<char>) -> (r: Option<Vec<char>>)
    ensures
        match r {
            Some(l) => first_line(s@) == Some(l@),
            None => first_line(s@) is None,
        },
{
    if s.len() == 0 {
        return None;
    }
    let mut q: usize = 0;
    while q < s.len() && s[q] != '\n'
        invariant
            q <= s@.len(),
            forall|j: int| 0 <= j < q ==> #[trigger] s@[j] != '\n',
        decreases s@.len() - q,
    {
        q = q + 1;
    }
    proof {
        lemma_upto_newline(s@, q as int);
    }
    let has_nl = q < s.len();
    let end = if has_nl && q > 0 && s[q - 1] == '\r' { q - 1 } else { q };
    let mut l: Vec<char> = Vec::new();
    let mut i: usize = 0;
    while i < end
        invariant
            end <= q <= s@.len(),
            i <= end,
            l@ == s@.subrange(0, i as int),
        decreases end - i,
    {
        l.push(s[i]);
        i = i + 1;
        assert(l@ =~= s@.subrange(0, i as int));
    }
    proof {
        if end < q {
            assert(s@.subrange(0, q as int).drop_last() =~= s@.subrange(0, end as int));
        }
    }
    Some(l)
}

/// The method and target of a request read from a connection (see
/// `request_target`), the bytes decoded leniently as UTF-8.
pub fn request_target_of(request: &[u8]) -> (r: Option<(String, String)>)
    ensures
        match r {
            Some((m, t)) => request_target(utf8_lossy(request@)) == Some((m@, t@)),
            None => request_target(utf8_lossy(request@)) is None,
        },
{
    let text = decode_lossy(request);
    let chars = crate::text::chars_of(text.as_str());
    let line = match first_line_chars(&chars) {
        Some(l) => l,
        None => return None,
    };
    let ws = words_of(&line, false);
    if ws.len() < 2 {
        return None;
    }
    let m = string_of(&ws[0]);
    let t = string_of(&ws[1]);
    Some((m, t))
}

/// What the server answers a request.
#[derive(Debug)]
pub enum Route {
    /// `405 Method Not Allowed`, no body.
    MethodNotAllowed,
    /// `400 Bad Request`: the target leaves the asset tree.
    BadRequest { include_body: bool },
    /// The asset at `path` (`200 OK` when it exists, `404 Not Found` otherwise).
    Asset { path: String, include_body: bool },
}

/// Routes a request by method and target: only `GET` and `HEAD` are served,
/// a `HEAD` answer has no body, and the target must name an asset (see
/// `asset_path`).
pub fn route(method: &str, raw_path: &str) -> (r: Route)
    ensures
        !(method@ == "GET"@ || method@ == "HEAD"@) ==> r is MethodNotAllowed,
        (method@ == "GET"@ || method@ == "HEAD"@) ==> match asset_of(raw_path@) {
            None => r == (Route::BadRequest { include_body: method@ == "GET"@ }),
            Some(p) => r matches Route::Asset { path, include_body } && path@ == p && include_body == (method@ == "GET"@),
        },
{
    let get = crate::text::str_eq(method, "GET");
    let head = crate::text::str_eq(method, "HEAD");
    if !get && !head {
        return Route::MethodNotAllowed;
    }
    match asset_path(raw_path) {
        Some(path) => Route::Asset { path, include_body: get },
        None => Route::BadRequest { include_body: get },
    }
}

/// The response header block: status line, content type and length, no
/// caching, connection close, no sniffing, then a blank line.
pub open spec fn response_head_text(status: Seq<char>, content_type: Seq<char>, body_len: nat) -> Seq<char> {
    "HTTP/1.1 "@ + status + "\r\nContent-Type: "@ + content_type + "\r\nContent-Length: "@ + decimal(body_len)
        + "\r\nCache-Control: no-store\r\nConnection: close\r\nX-Content-Type-Options: nosniff\r\n\r\n"@
}

/// The response header block (see `response_head_text`).
pub fn response_head(status: &str, content_type: &str, body_len: u64) -> (r: String)
    ensures
        r@ == response_head_text(status@, content_type@, body_len as nat),
{
    let mut s = String::from_str("HTTP/1.1 ");
    s.append(status);
    s.append("\r\nContent-Type: ");
    s.append(content_type);
    s.append("\r\nContent-Length: ");
    let n = decimal_string(body_len);
    s.append(n.as_str());
    s.append("\r\nCache-Control: no-store\r\nConnection: close\r\nX-Content-Type-Options: nosniff\r\n\r\n");
    s
}

/// The answer to a request, before its header block is written.
pub struct Response {
    pub status: String,
    pub content_type: String,
    pub body: Vec<u8>,
    /// Whether the body is sent (a `HEAD` answer sends only the headers).
    pub include_body: bool,
}

/// The bytes of the `404` body, `Not found`.
pub open spec fn not_found_body() -> Seq<u8> {
    seq![78u8, 111u8, 116u8, 32u8, 102u8, 111u8, 117u8, 110u8, 100u8]
}

/// The answer to a routed request; `found` is what the asset source holds
/// at the routed path (its MIME type and bytes), if anything:
/// - a method other than `GET`/`HEAD`: `405 Method Not Allowed`, plain text, no body;
/// - a target outside the asset tree: `400 Bad Request`, plain text, empty body;
/// - an asset that exists: `200 OK` with its type and bytes;
/// - an asset that does not: `404 Not Found`, plain text, `Not found`.
pub fn response_for(route: &Route, found: Option<(String, Vec<u8>)>) -> (r: Response)
    ensures
        *route is MethodNotAllowed ==> r.status@ == "405 Method Not Allowed"@ && r.content_type@ == "text/plain"@
            && r.body@.len() == 0 && !r.include_body,
        *route matches Route::BadRequest { include_body } ==> r.status@ == "400 Bad Request"@
            && r.content_type@ == "text/plain"@ && r.body@.len() == 0 && r.include_body == include_body,
        *route matches Route::Asset { include_body, .. } ==> r.include_body == include_body && match found {
            Some((mime, bytes)) => r.status@ == "200 OK"@ && r.content_type@ == mime@ && r.body@ == bytes@,
            None => r.status@ == "404 Not Found"@ && r.content_type@ == "text/plain"@ && r.body@
                == not_found_body(),
        },
{
    match route {
        Route::MethodNotAllowed => Response {
            status: String::from_str("405 Method Not Allowed"),
            content_type: String::from_str("text/plain"),
            body: Vec::new(),
            include_body: false,
        },
        Route::BadRequest { include_body } => Response {
            status: String::from_str("400 Bad Request"),
            content_type: String::from_str("text/plain"),
            body: Vec::new(),
            include_body: *include_body,
        },
        Route::Asset { include_body, .. } => match found {
            Some((mime, bytes)) => Response {
                status: String::from_str("200 OK"),
                content_type: mime,
                body: bytes,
                include_body: *include_body,
            },
            None => {
                let body: Vec<u8> = vec![78u8, 111u8, 116u8, 32u8, 102u8, 111u8, 117u8, 110u8, 100u8];
                assert(body@ == not_found_body());
                Response {
                    status: String::from_str("404 Not Found"),
                    content_type: String::from_str("text/plain"),
                    body,
                    include_body: *include_body,
                }
            },
        },
    }
}

} // verus!

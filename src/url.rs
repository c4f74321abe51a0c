use vstd::prelude::*;
use crate::headers::{lower, to_lower};

verus! {

/// A URL as the contracts see it.
pub struct UrlView {
    pub scheme: Seq<u8>,
    pub host: Option<Seq<u8>>,
    pub port: Option<u16>,
    pub path: Seq<u8>,
}

/// First index `k >= i` with `s[k] == b`, or `s.len()` when there is none.
pub open spec fn index_from(s: Seq<u8>, i: int, b: u8) -> int
    decreases s.len() - i,
{
    if i >= s.len() {
        s.len() as int
    } else if s[i] == b {
        i
    } else {
        index_from(s, i + 1, b)
    }
}

/// Bytes that end the authority part of a URL.
pub open spec fn ends_authority(b: u8) -> bool {
    b == 47 || b == 63 || b == 35
}

/// First index `k >= i` that ends the authority, or `s.len()`.
pub open spec fn authority_end(s: Seq<u8>, i: int) -> int
    decreases s.len() - i,
{
    if i >= s.len() {
        s.len() as int
    } else if ends_authority(s[i]) {
        i
    } else {
        authority_end(s, i + 1)
    }
}

/// Last index of `b` in `s`, or -1.
pub open spec fn last_index(s: Seq<u8>, b: u8) -> int
    decreases s.len(),
{
    if s.len() == 0 {
        -1
    } else if s.last() == b {
        s.len() - 1
    } else {
        last_index(s.drop_last(), b)
    }
}

pub open spec fn is_digit(b: u8) -> bool {
    48 <= b && b <= 57
}

pub open spec fn all_digits(s: Seq<u8>) -> bool {
    forall|i: int| 0 <= i < s.len() ==> is_digit(#[trigger] s[i])
}

/// The decimal value of a string of digits.
pub open spec fn digits_value(s: Seq<u8>) -> nat
    decreases s.len(),
{
    if s.len() == 0 {
        0
    } else {
        digits_value(s.drop_last()) * 10 + (s.last() - 48) as nat
    }
}

pub open spec fn is_alpha(b: u8) -> bool {
    (65 <= b && b <= 90) || (97 <= b && b <= 122)
}

pub open spec fn is_scheme_byte(b: u8) -> bool {
    is_alpha(b) || is_digit(b) || b == 43 || b == 45 || b == 46
}

/// A scheme: a letter, then letters, digits, `+`, `-` or `.`.
pub open spec fn valid_scheme(s: Seq<u8>) -> bool {
    &&& s.len() > 0
    &&& is_alpha(s[0])
    &&& forall|i: int| 0 <= i < s.len() ==> is_scheme_byte(#[trigger] s[i])
}

/// The port written after `:`: `Some(None)` when nothing is written,
/// `None` when the text is not a port number.
pub open spec fn parse_port(s: Seq<u8>) -> Option<Option<u16>> {
    if s.len() == 0 {
        Some(None)
    } else if all_digits(s) && digits_value(s) <= 65535 {
        Some(Some(digits_value(s) as u16))
    } else {
        None
    }
}

/// The path that follows the authority; an empty one becomes `/`.
pub open spec fn path_part(rest: Seq<u8>, e: int) -> Seq<u8> {
    if e < rest.len() && rest[e] == 47 {
        rest.subrange(e, rest.len() as int)
    } else {
        seq![47u8] + rest.subrange(e, rest.len() as int)
    }
}

/// `.` and `..` as path segments.
pub open spec fn is_dot(seg: Seq<u8>) -> bool {
    seg == seq![46u8]
}

pub open spec fn is_dot_dot(seg: Seq<u8>) -> bool {
    seg == seq![46u8, 46u8]
}

/// One path segment applied to the segments kept so far: `.` is dropped, `..` drops
/// the segment before it, and either one at the end leaves a trailing slash.
pub open spec fn dot_step(kept: Seq<Seq<u8>>, seg: Seq<u8>, last: bool) -> Seq<Seq<u8>> {
    if is_dot(seg) {
        if last {
            kept.push(Seq::empty())
        } else {
            kept
        }
    } else if is_dot_dot(seg) {
        let popped = if kept.len() > 0 {
            kept.drop_last()
        } else {
            kept
        };
        if last {
            popped.push(Seq::empty())
        } else {
            popped
        }
    } else {
        kept.push(seg)
    }
}

/// The segments kept after walking `rest`, the text that follows a `/`.
pub open spec fn walk_segments(rest: Seq<u8>, kept: Seq<Seq<u8>>) -> Seq<Seq<u8>>
    decreases rest.len(),
{
    let e = index_from(rest, 0, 47);
    if e >= rest.len() {
        dot_step(kept, rest, true)
    } else {
        proof {
            lemma_index_from_bounds(rest, 0, 47);
        }
        walk_segments(rest.subrange(e + 1, rest.len() as int), dot_step(kept, rest.subrange(0, e), false))
    }
}

/// Segments written back as a path, each after a `/`.
pub open spec fn render_segments(kept: Seq<Seq<u8>>) -> Seq<u8>
    decreases kept.len(),
{
    if kept.len() == 0 {
        Seq::empty()
    } else {
        render_segments(kept.drop_last()) + seq![47u8] + kept.last()
    }
}

/// A path (starting with `/`, no query) with its dot segments removed.
pub open spec fn remove_dot_segments(p: Seq<u8>) -> Seq<u8> {
    render_segments(walk_segments(p.subrange(1, p.len() as int), Seq::empty()))
}

/// A path with dot segments removed before the query, if any.
pub open spec fn normalize_path(p: Seq<u8>) -> Seq<u8> {
    let q = index_from(p, 0, 63);
    remove_dot_segments(p.subrange(0, q)) + p.subrange(q, p.len() as int)
}

/// A URL from what follows `scheme://`: `host[:port]` then the path.
/// User information (`@`) is not accepted.
pub open spec fn parse_hier(scheme: Seq<u8>, rest: Seq<u8>) -> Option<UrlView> {
    let e = authority_end(rest, 0);
    let auth = rest.subrange(0, e);
    let c = index_from(auth, 0, 58);
    let host = auth.subrange(0, c);
    let port_text = if c < auth.len() {
        auth.subrange(c + 1, auth.len() as int)
    } else {
        Seq::<u8>::empty()
    };
    if index_from(auth, 0, 64) < auth.len() {
        None
    } else {
        match parse_port(port_text) {
            None => None,
            Some(port) => Some(
                UrlView {
                    scheme,
                    host: if host.len() == 0 {
                        None
                    } else {
                        Some(lower(host))
                    },
                    port,
                    path: normalize_path(path_part(rest, e)),
                },
            ),
        }
    }
}

/// Whether `s` starts with a scheme and a colon.
pub open spec fn has_scheme(s: Seq<u8>) -> bool {
    let k = index_from(s, 0, 58);
    k < s.len() && valid_scheme(s.subrange(0, k))
}

/// An absolute URL `scheme://host[:port][path]`.
pub open spec fn parse_url(s: Seq<u8>) -> Option<UrlView> {
    let k = index_from(s, 0, 58);
    if !has_scheme(s) || !(k + 2 < s.len() && s[k + 1] == 47 && s[k + 2] == 47) {
        None
    } else {
        parse_hier(lower(s.subrange(0, k)), s.subrange(k + 3, s.len() as int))
    }
}

pub open spec fn with_path(base: UrlView, path: Seq<u8>) -> UrlView {
    UrlView { path, ..base }
}

/// `loc` resolved against `base`: a network-path reference (`//host/...`), an
/// absolute path, an absolute URL, a query, or a path relative to the directory of
/// the base path; `.` and `..` segments of the new path are resolved.
pub open spec fn join_url(base: UrlView, loc: Seq<u8>) -> Option<UrlView> {
    if loc.len() >= 2 && loc[0] == 47 && loc[1] == 47 {
        parse_hier(base.scheme, loc.subrange(2, loc.len() as int))
    } else if loc.len() >= 1 && loc[0] == 47 {
        Some(with_path(base, normalize_path(loc)))
    } else if has_scheme(loc) {
        parse_url(loc)
    } else if loc.len() == 0 {
        Some(base)
    } else if loc[0] == 63 {
        Some(with_path(base, base.path.subrange(0, index_from(base.path, 0, 63)) + loc))
    } else {
        Some(
            with_path(
                base,
                normalize_path(base.path.subrange(0, last_index(base.path, 47) + 1) + loc),
            ),
        )
    }
}

/// An absolute URL with a scheme, an optional host and port, and a path.
pub struct Url {
    scheme: Vec<u8>,
    host: Option<Vec<u8>>,
    port: Option<u16>,
    path: Vec<u8>,
}

impl View for Url {
    type V = UrlView;

    closed spec fn view(&self) -> UrlView {
        UrlView {
            scheme: self.scheme@,
            host: match self.host {
                Some(h) => Some(h@),
                None => None,
            },
            port: self.port,
            path: self.path@,
        }
    }
}

pub proof fn lemma_index_from_bounds(s: Seq<u8>, i: int, b: u8)
    requires
        0 <= i <= s.len(),
    ensures
        i <= index_from(s, i, b) <= s.len(),
        index_from(s, i, b) < s.len() ==> s[index_from(s, i, b)] == b,
        forall|k: int| i <= k < index_from(s, i, b) ==> s[k] != b,
    decreases s.len() - i,
{
    if i < s.len() && s[i] != b {
        lemma_index_from_bounds(s, i + 1, b);
    }
}

proof fn lemma_authority_end_bounds(s: Seq<u8>, i: int)
    requires
        0 <= i <= s.len(),
    ensures
        i <= authority_end(s, i) <= s.len(),
    decreases s.len() - i,
{
    if i < s.len() && !ends_authority(s[i]) {
        lemma_authority_end_bounds(s, i + 1);
    }
}

proof fn lemma_last_index_bounds(s: Seq<u8>, b: u8)
    ensures
        -1 <= last_index(s, b) < s.len(),
    decreases s.len(),
{
    if s.len() > 0 && s.last() != b {
        lemma_last_index_bounds(s.drop_last(), b);
    }
}

/// The bytes `s[a..b]` as a new vector.
pub fn copy_range(s: &[u8], a: usize, b: usize) -> (r: Vec<u8>)
    requires
        a <= b <= s@.len(),
    ensures
        r@ == s@.subrange(a as int, b as int),
{
    let mut r: Vec<u8> = Vec::new();
    let mut i: usize = a;
    while i < b
        invariant
            a <= i <= b,
            b <= s@.len(),
            r@ == s@.subrange(a as int, i as int),
        decreases b - i,
    {
        r.push(s[i]);
        i = i + 1;
        assert(r@ =~= s@.subrange(a as int, i as int));
    }
    r
}

/// `a` followed by `b`.
pub fn concat(a: &[u8], b: &[u8]) -> (r: Vec<u8>)
    ensures
        r@ == a@ + b@,
{
    let mut r = copy_range(a, 0, a.len());
    let mut i: usize = 0;
    while i < b.len()
        invariant
            i <= b@.len(),
            r@ == a@ + b@.subrange(0, i as int),
        decreases b@.len() - i,
    {
        r.push(b[i]);
        i = i + 1;
        assert(r@ =~= a@ + b@.subrange(0, i as int));
    }
    assert(b@.subrange(0, b@.len() as int) =~= b@);
    assert(a@.subrange(0, a@.len() as int) =~= a@);
    r
}

proof fn lemma_index_from_shift(s: Seq<u8>, i: int, j: int, b: u8)
    requires
        0 <= i <= j <= s.len(),
    ensures
        index_from(s, j, b) == i + index_from(s.subrange(i, s.len() as int), j - i, b),
    decreases s.len() - j,
{
    let t = s.subrange(i, s.len() as int);
    if j < s.len() {
        assert(t[j - i] == s[j]);
        if s[j] != b {
            lemma_index_from_shift(s, i, j + 1, b);
        }
    }
}

proof fn lemma_walk_nonempty(rest: Seq<u8>, kept: Seq<Seq<u8>>)
    ensures
        walk_segments(rest, kept).len() > 0,
    decreases rest.len(),
{
    let e = index_from(rest, 0, 47);
    lemma_index_from_bounds(rest, 0, 47);
    if e < rest.len() {
        lemma_walk_nonempty(
            rest.subrange(e + 1, rest.len() as int),
            dot_step(kept, rest.subrange(0, e), false),
        );
    }
}

proof fn lemma_render_starts_with_slash(kept: Seq<Seq<u8>>)
    requires
        kept.len() > 0,
    ensures
        render_segments(kept).len() > 0,
        render_segments(kept)[0] == 47,
    decreases kept.len(),
{
    let a = render_segments(kept.drop_last());
    if kept.drop_last().len() > 0 {
        lemma_render_starts_with_slash(kept.drop_last());
        assert((a + seq![47u8] + kept.last())[0] == a[0]);
    } else {
        assert(a.len() == 0);
        assert((a + seq![47u8] + kept.last())[0] == 47);
    }
}

proof fn lemma_normalize_starts_with_slash(p: Seq<u8>)
    requires
        p.len() > 0,
        p[0] == 47,
    ensures
        normalize_path(p).len() > 0,
        normalize_path(p)[0] == 47,
{
    let q = index_from(p, 0, 63);
    lemma_index_from_bounds(p, 0, 63);
    let head = p.subrange(0, q);
    lemma_walk_nonempty(head.subrange(1, head.len() as int), Seq::empty());
    lemma_render_starts_with_slash(walk_segments(head.subrange(1, head.len() as int), Seq::empty()));
}

pub open spec fn segments_view(v: Seq<Vec<u8>>) -> Seq<Seq<u8>> {
    v.map_values(|x: Vec<u8>| x@)
}

fn is_dot_bytes(seg: &Vec<u8>) -> (r: bool)
    ensures
        r == is_dot(seg@),
{
    let r = seg.len() == 1 && seg[0] == 46;
    if r {
        assert(seg@ =~= seq![46u8]);
    }
    r
}

fn is_dot_dot_bytes(seg: &Vec<u8>) -> (r: bool)
    ensures
        r == is_dot_dot(seg@),
{
    let r = seg.len() == 2 && seg[0] == 46 && seg[1] == 46;
    if r {
        assert(seg@ =~= seq![46u8, 46u8]);
    }
    r
}

/// The path `p` (starting with `/`, no query) with its dot segments removed.
fn remove_dots(p: &[u8]) -> (r: Vec<u8>)
    requires
        p@.len() > 0,
        p@[0] == 47,
    ensures
        r@ == remove_dot_segments(p@),
{
    let ghost whole = walk_segments(p@.subrange(1, p@.len() as int), Seq::empty());
    let mut kept: Vec<Vec<u8>> = Vec::new();
    let mut i: usize = 1;
    let mut done = false;
    assert(segments_view(kept@) =~= Seq::<Seq<u8>>::empty());
    while !done
        invariant
            1 <= i <= p@.len(),
            done ==> segments_view(kept@) == whole,
            !done ==> walk_segments(p@.subrange(i as int, p@.len() as int), segments_view(kept@))
                == whole,
        decreases (if done { 0 } else { p@.len() + 1 - i }),
    {
        let ghost rest = p@.subrange(i as int, p@.len() as int);
        let ghost before = segments_view(kept@);
        let e = find_byte(p, i, 47);
        proof {
            lemma_index_from_shift(p@, i as int, i as int, 47);
            lemma_index_from_bounds(p@, i as int, 47);
            assert(rest.subrange(0, e - i) =~= p@.subrange(i as int, e as int));
        }
        let seg = copy_range(p, i, e);
        let last = e == p.len();
        if is_dot_bytes(&seg) {
            if last {
                kept.push(Vec::new());
            }
        } else if is_dot_dot_bytes(&seg) {
            if kept.len() > 0 {
                kept.pop();
            }
            if last {
                kept.push(Vec::new());
            }
        } else {
            kept.push(seg);
        }
        proof {
            assert(segments_view(kept@) =~= dot_step(before, seg@, last));
            if last {
                assert(rest =~= seg@);
            } else {
                assert(rest.subrange(e - i + 1, rest.len() as int) =~= p@.subrange(
                    e + 1,
                    p@.len() as int,
                ));
            }
        }
        if last {
            done = true;
        } else {
            i = e + 1;
        }
    }
    let mut out: Vec<u8> = Vec::new();
    let mut k: usize = 0;
    assert(out@ =~= render_segments(segments_view(kept@).subrange(0, 0)));
    while k < kept.len()
        invariant
            k <= kept@.len(),
            out@ == render_segments(segments_view(kept@).subrange(0, k as int)),
        decreases kept@.len() - k,
    {
        let ghost sv = segments_view(kept@);
        assert(sv.subrange(0, k + 1).drop_last() =~= sv.subrange(0, k as int));
        out.push(47u8);
        let seg = &kept[k];
        let mut j: usize = 0;
        let ghost start = out@;
        while j < seg.len()
            invariant
                j <= seg@.len(),
                out@ == start + seg@.subrange(0, j as int),
            decreases seg@.len() - j,
        {
            out.push(seg[j]);
            j = j + 1;
            assert(out@ =~= start + seg@.subrange(0, j as int));
        }
        assert(seg@.subrange(0, seg@.len() as int) =~= seg@);
        k = k + 1;
    }
    assert(segments_view(kept@).subrange(0, kept@.len() as int) =~= segments_view(kept@));
    out
}

/// The path `p` (starting with `/`) with dot segments removed before any query.
fn normalize(p: &[u8]) -> (r: Vec<u8>)
    requires
        p@.len() > 0,
        p@[0] == 47,
    ensures
        r@ == normalize_path(p@),
        r@.len() > 0,
        r@[0] == 47,
{
    let q = find_byte(p, 0, 63);
    proof {
        lemma_index_from_bounds(p@, 0, 63);
        lemma_normalize_starts_with_slash(p@);
    }
    let head = copy_range(p, 0, q);
    let tail = copy_range(p, q, p.len());
    let cleaned = remove_dots(head.as_slice());
    concat(cleaned.as_slice(), tail.as_slice())
}

fn find_byte(s: &[u8], i: usize, b: u8) -> (r: usize)
    requires
        i <= s@.len(),
    ensures
        r == index_from(s@, i as int, b),
{
    let mut k: usize = i;
    while k < s.len()
        invariant
            i <= k <= s@.len(),
            index_from(s@, k as int, b) == index_from(s@, i as int, b),
        decreases s@.len() - k,
    {
        if s[k] == b {
            return k;
        }
        k = k + 1;
    }
    k
}

fn find_authority_end(s: &[u8]) -> (r: usize)
    ensures
        r == authority_end(s@, 0),
{
    let mut k: usize = 0;
    while k < s.len()
        invariant
            k <= s@.len(),
            authority_end(s@, k as int) == authority_end(s@, 0),
        decreases s@.len() - k,
    {
        let c = s[k];
        if c == 47 || c == 63 || c == 35 {
            return k;
        }
        k = k + 1;
    }
    k
}

/// One past the last `/` of `s` (0 when there is none).
fn after_last_slash(s: &[u8]) -> (r: usize)
    ensures
        r == last_index(s@, 47) + 1,
{
    let mut k: usize = s.len();
    assert(s@.subrange(0, k as int) =~= s@);
    while k > 0
        invariant
            k <= s@.len(),
            last_index(s@, 47) == last_index(s@.subrange(0, k as int), 47),
        decreases k,
    {
        assert(s@.subrange(0, k as int).drop_last() =~= s@.subrange(0, k - 1));
        if s[k - 1] == 47 {
            return k;
        }
        k = k - 1;
    }
    proof {
        assert(s@.subrange(0, 0) =~= Seq::<u8>::empty());
    }
    0
}

proof fn lemma_digits_value_grows(s: Seq<u8>, i: int)
    requires
        0 <= i <= s.len(),
    ensures
        digits_value(s.subrange(0, i)) <= digits_value(s),
    decreases s.len() - i,
{
    if i < s.len() {
        lemma_digits_value_grows(s, i + 1);
        assert(s.subrange(0, i + 1).drop_last() =~= s.subrange(0, i));
    } else {
        assert(s.subrange(0, i) =~= s);
    }
}

fn read_port(s: &[u8]) -> (r: Option<Option<u16>>)
    ensures
        r == parse_port(s@),
{
    if s.len() == 0 {
        return Some(None);
    }
    let mut acc: u32 = 0;
    let mut i: usize = 0;
    while i < s.len()
        invariant
            i <= s@.len(),
            acc as nat == digits_value(s@.subrange(0, i as int)),
            acc <= 65535,
            forall|k: int| 0 <= k < i ==> is_digit(#[trigger] s@[k]),
        decreases s@.len() - i,
    {
        let c = s[i];
        if !(48 <= c && c <= 57) {
            return None;
        }
        assert(s@.subrange(0, i + 1).drop_last() =~= s@.subrange(0, i as int));
        let next = acc * 10 + (c - 48) as u32;
        i = i + 1;
        if next > 65535 {
            proof {
                lemma_digits_value_grows(s@, i as int);
            }
            return None;
        }
        acc = next;
    }
    assert(s@.subrange(0, s@.len() as int) =~= s@);
    Some(Some(acc as u16))
}

fn is_valid_scheme(s: &[u8]) -> (r: bool)
    ensures
        r == valid_scheme(s@),
{
    if s.len() == 0 {
        return false;
    }
    let f = s[0];
    if !((65 <= f && f <= 90) || (97 <= f && f <= 122)) {
        return false;
    }
    let mut i: usize = 0;
    while i < s.len()
        invariant
            i <= s@.len(),
            forall|k: int| 0 <= k < i ==> is_scheme_byte(#[trigger] s@[k]),
        decreases s@.len() - i,
    {
        let c = s[i];
        if !((65 <= c && c <= 90) || (97 <= c && c <= 122) || (48 <= c && c <= 57) || c == 43
            || c == 45 || c == 46) {
            return false;
        }
        i = i + 1;
    }
    true
}

fn starts_with_scheme(s: &[u8]) -> (r: bool)
    ensures
        r == has_scheme(s@),
{
    let k = find_byte(s, 0, 58);
    proof {
        lemma_index_from_bounds(s@, 0, 58);
    }
    if k == s.len() {
        return false;
    }
    let head = copy_range(s, 0, k);
    is_valid_scheme(head.as_slice())
}

fn read_hier(scheme: Vec<u8>, rest: &[u8]) -> (r: Option<Url>)
    ensures
        match r {
            Some(u) => parse_hier(scheme@, rest@) == Some(u@),
            None => parse_hier(scheme@, rest@) is None,
        },
{
    let e = find_authority_end(rest);
    proof {
        lemma_authority_end_bounds(rest@, 0);
    }
    let auth = copy_range(rest, 0, e);
    let at = find_byte(auth.as_slice(), 0, 64);
    if at < auth.len() {
        return None;
    }
    let c = find_byte(auth.as_slice(), 0, 58);
    proof {
        lemma_index_from_bounds(auth@, 0, 58);
    }
    let host_text = copy_range(auth.as_slice(), 0, c);
    let port_text = if c < auth.len() {
        copy_range(auth.as_slice(), c + 1, auth.len())
    } else {
        Vec::new()
    };
    proof {
        if c >= auth@.len() {
            assert(port_text@ =~= Seq::<u8>::empty());
        }
    }
    let port = match read_port(port_text.as_slice()) {
        None => return None,
        Some(p) => p,
    };
    let host = if host_text.len() == 0 {
        None
    } else {
        Some(to_lower(host_text.as_slice()))
    };
    let tail = copy_range(rest, e, rest.len());
    let full = if e < rest.len() && rest[e] == 47 {
        tail
    } else {
        let slash: Vec<u8> = vec![47u8];
        assert(slash@ =~= seq![47u8]);
        concat(slash.as_slice(), tail.as_slice())
    };
    proof {
        lemma_parse_hier_wf(scheme@, rest@);
    }
    let path = normalize(full.as_slice());
    let u = Url { scheme, host, port, path };
    Some(u)
}

impl Url {
    pub open spec fn wf(&self) -> bool {
        self@.path.len() > 0 && self@.path[0] == 47
    }

    /// Parses an absolute URL `scheme://host[:port][path]`.
    pub fn parse(s: &[u8]) -> (r: Option<Url>)
        ensures
            match r {
                Some(u) => parse_url(s@) == Some(u@) && u.wf(),
                None => parse_url(s@) is None,
            },
    {
        let k = find_byte(s, 0, 58);
        proof {
            lemma_index_from_bounds(s@, 0, 58);
        }
        if !starts_with_scheme(s) {
            return None;
        }
        if !(s.len() >= 3 && k < s.len() - 2 && s[k + 1] == 47 && s[k + 2] == 47) {
            return None;
        }
        let scheme = to_lower(copy_range(s, 0, k).as_slice());
        let rest = copy_range(s, k + 3, s.len());
        let r = read_hier(scheme, rest.as_slice());
        proof {
            lemma_parse_hier_wf(lower(s@.subrange(0, k as int)), rest@);
        }
        r
    }

    /// Resolves the reference `loc` against this URL.
    pub fn join(&self, loc: &[u8]) -> (r: Option<Url>)
        requires
            self.wf(),
        ensures
            match r {
                Some(u) => join_url(self@, loc@) == Some(u@) && u.wf(),
                None => join_url(self@, loc@) is None,
            },
    {
        if loc.len() >= 2 && loc[0] == 47 && loc[1] == 47 {
            let rest = copy_range(loc, 2, loc.len());
            let scheme = copy_range(self.scheme.as_slice(), 0, self.scheme.len());
            assert(self.scheme@.subrange(0, self.scheme@.len() as int) =~= self.scheme@);
            proof {
                lemma_parse_hier_wf(self@.scheme, rest@);
            }
            return read_hier(scheme, rest.as_slice());
        }
        if loc.len() >= 1 && loc[0] == 47 {
            return Some(self.with_path(normalize(loc)));
        }
        if starts_with_scheme(loc) {
            return Url::parse(loc);
        }
        if loc.len() == 0 {
            assert(self@.path.subrange(0, self@.path.len() as int) =~= self@.path);
            assert(with_path(self@, self@.path) == self@);
            return Some(self.with_path(copy_range(self.path.as_slice(), 0, self.path.len())));
        }
        if loc[0] == 63 {
            let q = find_byte(self.path.as_slice(), 0, 63);
            proof {
                lemma_index_from_bounds(self@.path, 0, 63);
            }
            let head = copy_range(self.path.as_slice(), 0, q);
            return Some(self.with_path(concat(head.as_slice(), loc)));
        }
        let d = after_last_slash(self.path.as_slice());
        proof {
            lemma_last_index_bounds(self@.path, 47);
            lemma_last_index_of_first(self@.path, 47);
        }
        let head = copy_range(self.path.as_slice(), 0, d);
        let joined = concat(head.as_slice(), loc);
        Some(self.with_path(normalize(joined.as_slice())))
    }

    pub fn scheme(&self) -> (r: &Vec<u8>)
        ensures
            r@ == self@.scheme,
    {
        &self.scheme
    }

    pub fn host(&self) -> (r: Option<Vec<u8>>)
        ensures
            match r {
                Some(h) => self@.host == Some(h@),
                None => self@.host is None,
            },
    {
        match &self.host {
            Some(h) => {
                assert(h@.subrange(0, h@.len() as int) =~= h@);
                Some(copy_range(h.as_slice(), 0, h.len()))
            },
            None => None,
        }
    }

    pub fn port(&self) -> (r: Option<u16>)
        ensures
            r == self@.port,
    {
        self.port
    }

    pub fn path(&self) -> (r: &Vec<u8>)
        ensures
            r@ == self@.path,
    {
        &self.path
    }

    /// A copy of this URL.
    pub fn copy(&self) -> (r: Url)
        ensures
            r@ == self@,
            self.wf() ==> r.wf(),
    {
        let p = copy_range(self.path.as_slice(), 0, self.path.len());
        assert(self@.path.subrange(0, self@.path.len() as int) =~= self@.path);
        assert(with_path(self@, self@.path) == self@);
        self.with_path(p)
    }

    fn with_path(&self, path: Vec<u8>) -> (r: Url)
        ensures
            r@ == with_path(self@, path@),
    {
        let host = match &self.host {
            Some(h) => {
                assert(h@.subrange(0, h@.len() as int) =~= h@);
                Some(copy_range(h.as_slice(), 0, h.len()))
            },
            None => None,
        };
        assert(self.scheme@.subrange(0, self.scheme@.len() as int) =~= self.scheme@);
        Url { scheme: copy_range(self.scheme.as_slice(), 0, self.scheme.len()), host, port: self.port, path }
    }
}

proof fn lemma_parse_hier_wf(scheme: Seq<u8>, rest: Seq<u8>)
    ensures
        path_part(rest, authority_end(rest, 0)).len() > 0,
        path_part(rest, authority_end(rest, 0))[0] == 47,
        parse_hier(scheme, rest) matches Some(u) ==> u.path.len() > 0 && u.path[0] == 47,
{
    let e = authority_end(rest, 0);
    lemma_authority_end_bounds(rest, 0);
    if !(e < rest.len() && rest[e] == 47) {
        assert((seq![47u8] + rest.subrange(e, rest.len() as int))[0] == 47);
    }
    lemma_normalize_starts_with_slash(path_part(rest, e));
}

proof fn lemma_last_index_of_first(s: Seq<u8>, b: u8)
    requires
        s.len() > 0,
        s[0] == b,
    ensures
        last_index(s, b) >= 0,
    decreases s.len(),
{
    if s.last() != b {
        lemma_last_index_of_first(s.drop_last(), b);
    }
}

} // verus!

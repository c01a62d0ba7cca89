use vstd::prelude::*;

verus! {

// The callback listener reads one HTTP request from the browser's redirect
// and pulls the one-shot credential out of it.  Two shapes of redirect are
// in use: the token rides either in an `apiKey` query parameter of the
// request line, or in the value of the first cookie on a `Cookie` header
// line.  Both extractors are total: on any input that carries no token they
// return nothing, and the caller drops the connection without failing.

/// A token separator inside a request line or header value: space or tab.
pub open spec fn is_sep(c: char) -> bool {
    c == ' ' || c == '\t'
}

/// The index of the first occurrence of `c` in `s`, or `s.len()` when `c`
/// does not occur.
pub open spec fn find_char(s: Seq<char>, c: char) -> int
    decreases s.len(),
{
    if s.len() == 0 {
        0
    } else if s[0] == c {
        0
    } else {
        1 + find_char(s.skip(1), c)
    }
}

/// The index of the first separator in `s`, or `s.len()`.
pub open spec fn find_sep(s: Seq<char>) -> int
    decreases s.len(),
{
    if s.len() == 0 {
        0
    } else if is_sep(s[0]) {
        0
    } else {
        1 + find_sep(s.skip(1))
    }
}

/// The index of the first non-separator in `s`, or `s.len()`.
pub open spec fn find_non_sep(s: Seq<char>) -> int
    decreases s.len(),
{
    if s.len() == 0 {
        0
    } else if !is_sep(s[0]) {
        0
    } else {
        1 + find_non_sep(s.skip(1))
    }
}

/// `pat` occurs in `s` starting at index `i`.
pub open spec fn match_at(s: Seq<char>, pat: Seq<char>, i: int) -> bool {
    0 <= i && i + pat.len() <= s.len() && s.subrange(i, i + pat.len()) == pat
}

/// The index of the first occurrence of `pat` in `s`, or `s.len()` when
/// `pat` does not occur.
pub open spec fn find_sub(s: Seq<char>, pat: Seq<char>) -> int
    decreases s.len(),
{
    if match_at(s, pat, 0) {
        0
    } else if s.len() == 0 {
        0
    } else {
        1 + find_sub(s.skip(1), pat)
    }
}

/// `line` without a trailing carriage return.
pub open spec fn strip_cr(line: Seq<char>) -> Seq<char> {
    if line.len() > 0 && line.last() == '\r' {
        line.drop_last()
    } else {
        line
    }
}

/// The first line of `req`: everything before the first line feed, without a
/// trailing carriage return.
pub open spec fn first_line(req: Seq<char>) -> Seq<char> {
    strip_cr(req.take(find_char(req, '\n')))
}

/// The second separator-delimited token of `line`, if there are two: for a
/// request line `GET <target> HTTP/1.1` this is the request target.
pub open spec fn second_token(line: Seq<char>) -> Option<Seq<char>> {
    let rest1 = line.skip(find_non_sep(line));
    if rest1.len() == 0 {
        None
    } else {
        let rest2 = rest1.skip(find_sep(rest1));
        let rest3 = rest2.skip(find_non_sep(rest2));
        if rest3.len() == 0 {
            None
        } else {
            Some(rest3.take(find_sep(rest3)))
        }
    }
}

/// `s` without leading and trailing separators.
pub open spec fn trim_sep(s: Seq<char>) -> Seq<char> {
    let t = s.skip(find_non_sep(s));
    t.take(last_non_sep_end(t))
}

/// One past the index of the last non-separator of `s`, or 0 when `s` is all
/// separators.
pub open spec fn last_non_sep_end(s: Seq<char>) -> int
    decreases s.len(),
{
    if s.len() == 0 {
        0
    } else if is_sep(s.last()) {
        last_non_sep_end(s.drop_last())
    } else {
        s.len() as int
    }
}

/// The token the query-parameter strategy yields from a raw request: in the
/// request target (the second token of the first line), the text after the
/// first `apiKey=` marker up to the next `&` or the target's end.  Nothing
/// when the request is empty, has no request target, or carries no marker.
pub open spec fn query_token(req: Seq<char>) -> Option<Seq<char>> {
    if req.len() == 0 {
        None
    } else {
        match second_token(first_line(req)) {
            None => None,
            Some(target) => {
                let p = find_sub(target, "apiKey="@);
                if match_at(target, "apiKey="@, p) {
                    let v = target.skip(p + "apiKey="@.len());
                    Some(v.take(find_char(v, '&')))
                } else {
                    None
                }
            },
        }
    }
}

/// The first line of `req` that begins with the `Cookie` header name.
pub open spec fn cookie_line(req: Seq<char>) -> Option<Seq<char>>
    decreases req.len(),
{
    let line = first_line(req);
    if match_at(line, "Cookie:"@, 0) {
        Some(line)
    } else {
        let e = find_char(req, '\n');
        if 0 <= e && e < req.len() {
            cookie_line(req.skip(e + 1))
        } else {
            None
        }
    }
}

/// The token the header strategy yields: on the first `Cookie` header line,
/// the value of the first cookie pair — the text after the first `=`, up to
/// the next `;` or the line's end, trimmed of separators.  Nothing when no
/// line bears the header name or the line has no `=`.
pub open spec fn cookie_token(req: Seq<char>) -> Option<Seq<char>> {
    match cookie_line(req) {
        None => None,
        Some(line) => {
            let rest = line.skip("Cookie:"@.len() as int);
            let eq = find_char(rest, '=');
            if eq == rest.len() {
                None
            } else {
                let v = rest.skip(eq + 1);
                Some(trim_sep(v.take(find_char(v, ';'))))
            }
        },
    }
}

proof fn lemma_find_char(s: Seq<char>, c: char)
    ensures
        0 <= find_char(s, c) <= s.len(),
        find_char(s, c) < s.len() ==> s[find_char(s, c)] == c,
        forall|j: int| 0 <= j < find_char(s, c) ==> s[j] != c,
    decreases s.len(),
{
    if s.len() > 0 && s[0] != c {
        lemma_find_char(s.skip(1), c);
        let f = find_char(s, c);
        assert forall|j: int| 0 <= j < f implies s[j] != c by {
            if j > 0 {
                assert(s.skip(1)[j - 1] == s[j]);
            }
        }
        if f < s.len() {
            assert(s.skip(1)[f - 1] == s[f]);
        }
    }
}

proof fn lemma_find_sep(s: Seq<char>)
    ensures
        0 <= find_sep(s) <= s.len(),
        find_sep(s) < s.len() ==> is_sep(s[find_sep(s)]),
        forall|j: int| 0 <= j < find_sep(s) ==> !is_sep(s[j]),
    decreases s.len(),
{
    if s.len() > 0 && !is_sep(s[0]) {
        lemma_find_sep(s.skip(1));
        let f = find_sep(s);
        assert forall|j: int| 0 <= j < f implies !is_sep(s[j]) by {
            if j > 0 {
                assert(s.skip(1)[j - 1] == s[j]);
            }
        }
        if f < s.len() {
            assert(s.skip(1)[f - 1] == s[f]);
        }
    }
}

proof fn lemma_find_non_sep(s: Seq<char>)
    ensures
        0 <= find_non_sep(s) <= s.len(),
        find_non_sep(s) < s.len() ==> !is_sep(s[find_non_sep(s)]),
        forall|j: int| 0 <= j < find_non_sep(s) ==> is_sep(s[j]),
    decreases s.len(),
{
    if s.len() > 0 && is_sep(s[0]) {
        lemma_find_non_sep(s.skip(1));
        let f = find_non_sep(s);
        assert forall|j: int| 0 <= j < f implies is_sep(s[j]) by {
            if j > 0 {
                assert(s.skip(1)[j - 1] == s[j]);
            }
        }
        if f < s.len() {
            assert(s.skip(1)[f - 1] == s[f]);
        }
    }
}

proof fn lemma_find_sub(s: Seq<char>, pat: Seq<char>)
    ensures
        0 <= find_sub(s, pat) <= s.len(),
        match_at(s, pat, find_sub(s, pat)) || find_sub(s, pat) == s.len(),
        forall|j: int| 0 <= j < find_sub(s, pat) ==> !match_at(s, pat, j),
    decreases s.len(),
{
    if !match_at(s, pat, 0) && s.len() > 0 {
        lemma_find_sub(s.skip(1), pat);
        let f = find_sub(s, pat);
        assert forall|j: int| 1 <= j implies match_at(s, pat, j) == match_at(
            s.skip(1),
            pat,
            j - 1,
        ) by {
            if 0 <= j - 1 && j - 1 + pat.len() <= s.skip(1).len() {
                assert(s.subrange(j, j + pat.len() as int) =~= s.skip(1).subrange(
                    j - 1,
                    j - 1 + pat.len() as int,
                ));
            }
        }
    }
}

/// The index of the first occurrence of `c` in `s`, or `s`'s length.
fn find_char_str(s: &str, c: char) -> (r: usize)
    ensures
        r as int == find_char(s@, c),
{
    proof {
        lemma_find_char(s@, c);
    }
    let n = s.unicode_len();
    let mut i: usize = 0;
    while i < n
        invariant
            i <= n,
            n == s@.len(),
            forall|j: int| 0 <= j < i ==> s@[j] != c,
        decreases n - i,
    {
        if s.get_char(i) == c {
            proof {
                lemma_find_char(s@, c);
            }
            return i;
        }
        i += 1;
    }
    n
}

/// The index of the first separator in `s`, or `s`'s length.
fn find_sep_str(s: &str) -> (r: usize)
    ensures
        r as int == find_sep(s@),
{
    proof {
        lemma_find_sep(s@);
    }
    let n = s.unicode_len();
    let mut i: usize = 0;
    while i < n
        invariant
            i <= n,
            n == s@.len(),
            forall|j: int| 0 <= j < i ==> !is_sep(s@[j]),
        decreases n - i,
    {
        let ch = s.get_char(i);
        if ch == ' ' || ch == '\t' {
            proof {
                lemma_find_sep(s@);
            }
            return i;
        }
        i += 1;
    }
    n
}

/// The index of the first non-separator in `s`, or `s`'s length.
fn find_non_sep_str(s: &str) -> (r: usize)
    ensures
        r as int == find_non_sep(s@),
{
    proof {
        lemma_find_non_sep(s@);
    }
    let n = s.unicode_len();
    let mut i: usize = 0;
    while i < n
        invariant
            i <= n,
            n == s@.len(),
            forall|j: int| 0 <= j < i ==> is_sep(s@[j]),
        decreases n - i,
    {
        let ch = s.get_char(i);
        if !(ch == ' ' || ch == '\t') {
            proof {
                lemma_find_non_sep(s@);
            }
            return i;
        }
        i += 1;
    }
    n
}

/// Whether `s` begins with `pat`.
fn starts_with_str(s: &str, pat: &str) -> (r: bool)
    ensures
        r == match_at(s@, pat@, 0),
{
    let n = s.unicode_len();
    let m = pat.unicode_len();
    if m > n {
        return false;
    }
    let mut k: usize = 0;
    while k < m
        invariant
            k <= m,
            m <= n,
            n == s@.len(),
            m == pat@.len(),
            forall|j: int| 0 <= j < k ==> s@[j] == pat@[j],
        decreases m - k,
    {
        if s.get_char(k) != pat.get_char(k) {
            proof {
                if match_at(s@, pat@, 0) {
                    assert(s@.subrange(0, m as int)[k as int] == pat@[k as int]);
                }
            }
            return false;
        }
        k += 1;
    }
    proof {
        assert(s@.subrange(0, m as int) =~= pat@);
    }
    true
}

/// The index of the first occurrence of `pat` in `s`, or `s`'s length.
fn find_sub_str(s: &str, pat: &str) -> (r: usize)
    ensures
        r as int == find_sub(s@, pat@),
{
    proof {
        lemma_find_sub(s@, pat@);
    }
    let n = s.unicode_len();
    let m = pat.unicode_len();
    if m == 0 {
        proof {
            assert(s@.subrange(0, 0) =~= pat@);
        }
        return 0;
    }
    let mut i: usize = 0;
    while i < n
        invariant
            i <= n,
            n == s@.len(),
            m == pat@.len(),
            m >= 1,
            forall|j: int| 0 <= j < i ==> !match_at(s@, pat@, j),
        decreases n - i,
    {
        if m <= n - i {
            let mut k: usize = 0;
            let mut matched = true;
            while k < m
                invariant
                    k <= m,
                    i + m <= n,
                    n == s@.len(),
                    m == pat@.len(),
                    matched ==> forall|j: int| 0 <= j < k ==> s@[i + j] == pat@[j],
                    !matched ==> !match_at(s@, pat@, i as int),
                decreases m - k,
            {
                if s.get_char(i + k) != pat.get_char(k) {
                    proof {
                        if match_at(s@, pat@, i as int) {
                            assert(s@.subrange(i as int, i as int + m as int)[k as int]
                                == pat@[k as int]);
                        }
                    }
                    matched = false;
                    k = m;
                } else {
                    k += 1;
                }
            }
            if matched {
                proof {
                    assert forall|j: int| 0 <= j < m implies s@.subrange(
                        i as int,
                        i as int + m as int,
                    )[j] == pat@[j] by {
                        assert(s@[i + j] == pat@[j]);
                    }
                    assert(s@.subrange(i as int, i as int + m as int) =~= pat@);
                    assert(match_at(s@, pat@, i as int));
                    lemma_find_sub(s@, pat@);
                }
                return i;
            }
        } else {
            proof {
                lemma_find_sub(s@, pat@);
            }
            return n;
        }
        i += 1;
    }
    n
}

/// `line` without a trailing carriage return.
fn strip_cr_str<'a>(line: &'a str) -> (r: &'a str)
    ensures
        r@ == strip_cr(line@),
{
    let n = line.unicode_len();
    if n > 0 && line.get_char(n - 1) == '\r' {
        let r = line.substring_char(0, n - 1);
        proof {
            assert(r@ =~= line@.drop_last());
        }
        r
    } else {
        line
    }
}

/// `s` without leading and trailing separators.
fn trim_sep_str<'a>(s: &'a str) -> (r: &'a str)
    ensures
        r@ == trim_sep(s@),
{
    let n = s.unicode_len();
    let a = find_non_sep_str(s);
    proof {
        lemma_find_non_sep(s@);
    }
    let t = s.substring_char(a, n);
    let m = t.unicode_len();
    let mut e: usize = 0;
    let mut i: usize = 0;
    while i < m
        invariant
            i <= m,
            e <= i,
            m == t@.len(),
            e as int == last_non_sep_end(t@.take(i as int)),
        decreases m - i,
    {
        proof {
            assert(t@.take(i as int + 1).drop_last() =~= t@.take(i as int));
            assert(t@.take(i as int + 1).last() == t@[i as int]);
        }
        let ch = t.get_char(i);
        if !(ch == ' ' || ch == '\t') {
            e = i + 1;
        }
        i += 1;
    }
    proof {
        assert(t@.take(m as int) =~= t@);
    }
    t.substring_char(0, e)
}

/// Pulls the credential out of a request whose redirect carries it as the
/// `apiKey` query parameter of the request line, per [`query_token`].  A
/// request that carries no token yields `None`; it is never an error.
pub fn extract_api_key(request: &str) -> (r: Option<String>)
    ensures
        match r {
            Some(t) => query_token(request@) == Some(t@),
            None => query_token(request@) is None,
        },
{
    let n = request.unicode_len();
    if n == 0 {
        return None;
    }
    let le = find_char_str(request, '\n');
    proof {
        lemma_find_char(request@, '\n');
    }
    let line0 = request.substring_char(0, le);
    let line = strip_cr_str(line0);
    match second_token_str(line) {
        None => None,
        Some(target) => {
            let m = target.unicode_len();
            let p = find_sub_str(target, "apiKey=");
            proof {
                lemma_find_sub(target@, "apiKey="@);
            }
            let plen = "apiKey=".unicode_len();
            if plen <= m - p {
                proof {
                    if !match_at(target@, "apiKey="@, p as int) {
                        assert(target@.subrange(p as int, p as int) =~= "apiKey="@);
                    }
                }
                let rest = target.substring_char(p + plen, m);
                let amp = find_char_str(rest, '&');
                proof {
                    lemma_find_char(rest@, '&');
                }
                let tok = rest.substring_char(0, amp);
                Some(tok.to_owned())
            } else {
                None
            }
        },
    }
}

/// The second separator-delimited token of `line`, if there are two.
fn second_token_str<'a>(line: &'a str) -> (r: Option<&'a str>)
    ensures
        match r {
            Some(t) => second_token(line@) == Some(t@),
            None => second_token(line@) is None,
        },
{
    let n = line.unicode_len();
    let a1 = find_non_sep_str(line);
    proof {
        lemma_find_non_sep(line@);
    }
    let rest1 = line.substring_char(a1, n);
    let r1n = rest1.unicode_len();
    if r1n == 0 {
        return None;
    }
    let e1 = find_sep_str(rest1);
    proof {
        lemma_find_sep(rest1@);
    }
    let rest2 = rest1.substring_char(e1, r1n);
    let r2n = rest2.unicode_len();
    let a2 = find_non_sep_str(rest2);
    proof {
        lemma_find_non_sep(rest2@);
    }
    let rest3 = rest2.substring_char(a2, r2n);
    let r3n = rest3.unicode_len();
    if r3n == 0 {
        return None;
    }
    let e2 = find_sep_str(rest3);
    proof {
        lemma_find_sep(rest3@);
    }
    Some(rest3.substring_char(0, e2))
}

/// Pulls the credential out of a request whose redirect carries it as the
/// first cookie on a `Cookie` header line, per [`cookie_token`].  A request
/// that carries no token yields `None`; it is never an error.
pub fn extract_cookie_token(request: &str) -> (r: Option<String>)
    ensures
        match r {
            Some(t) => cookie_token(request@) == Some(t@),
            None => cookie_token(request@) is None,
        },
{
    let mut cur: &str = request;
    loop
        invariant
            cookie_line(request@) == cookie_line(cur@),
        decreases cur@.len(),
    {
        let n = cur.unicode_len();
        let le = find_char_str(cur, '\n');
        proof {
            lemma_find_char(cur@, '\n');
        }
        let line0 = cur.substring_char(0, le);
        let line = strip_cr_str(line0);
        if starts_with_str(line, "Cookie:") {
            let ln = line.unicode_len();
            let clen = "Cookie:".unicode_len();
            let rest = line.substring_char(clen, ln);
            let rn = rest.unicode_len();
            let eq = find_char_str(rest, '=');
            proof {
                lemma_find_char(rest@, '=');
            }
            if eq == rn {
                return None;
            }
            let v = rest.substring_char(eq + 1, rn);
            let sc = find_char_str(v, ';');
            proof {
                lemma_find_char(v@, ';');
            }
            let v2 = v.substring_char(0, sc);
            let t = trim_sep_str(v2);
            return Some(t.to_owned());
        } else if le >= n {
            return None;
        } else {
            cur = cur.substring_char(le + 1, n);
        }
    }
}

} // verus!

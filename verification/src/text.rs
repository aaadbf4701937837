//! Character-level helpers on `str` with their mathematical meaning:
//! whitespace classes, trimming, splitting, prefix tests and
//! ASCII case-insensitive comparison.
use vstd::prelude::*;

verus! {

/// The ASCII whitespace of `u8::is_ascii_whitespace`: space, tab, line feed,
/// form feed and carriage return.
pub open spec fn is_ascii_ws(c: char) -> bool {
    c == ' ' || c == '\t' || c == '\n' || c == '\x0C' || c == '\r'
}

/// The Unicode `White_Space` property, as `char::is_whitespace` reports it.
pub open spec fn is_ws(c: char) -> bool {
    ||| '\t' <= c && c <= '\r'
    ||| c == ' '
    ||| c == '\u{85}'
    ||| c == '\u{A0}'
    ||| c == '\u{1680}'
    ||| '\u{2000}' <= c && c <= '\u{200A}'
    ||| c == '\u{2028}'
    ||| c == '\u{2029}'
    ||| c == '\u{202F}'
    ||| c == '\u{205F}'
    ||| c == '\u{3000}'
}

/// `s` with its leading whitespace removed.
pub open spec fn trim_front(s: Seq<char>) -> Seq<char>
    decreases s.len(),
{
    if s.len() > 0 && is_ws(s[0]) {
        trim_front(s.drop_first())
    } else {
        s
    }
}

/// `s` with its trailing whitespace removed.
pub open spec fn trim_back(s: Seq<char>) -> Seq<char>
    decreases s.len(),
{
    if s.len() > 0 && is_ws(s.last()) {
        trim_back(s.drop_last())
    } else {
        s
    }
}

/// What `str::trim` gives back.
pub open spec fn trimmed(s: Seq<char>) -> Seq<char> {
    trim_back(trim_front(s))
}

/// `s` with every trailing `"\r\n"` removed, as `trim_end_matches("\r\n")` does.
pub open spec fn strip_crlf(s: Seq<char>) -> Seq<char>
    decreases s.len(),
{
    if s.len() >= 2 && s[s.len() - 2] == '\r' && s[s.len() - 1] == '\n' {
        strip_crlf(s.subrange(0, s.len() - 2))
    } else {
        s
    }
}

/// The length of the run of non-whitespace characters that starts `s`.
pub open spec fn token_len(s: Seq<char>) -> nat
    decreases s.len(),
{
    if s.len() == 0 || is_ascii_ws(s[0]) {
        0
    } else {
        1 + token_len(s.drop_first())
    }
}

/// The pieces that `str::split_ascii_whitespace` yields: the maximal runs of
/// characters that are not ASCII whitespace, in order.
pub open spec fn ws_tokens(s: Seq<char>) -> Seq<Seq<char>>
    decreases s.len(),
{
    if s.len() == 0 {
        seq![]
    } else if is_ascii_ws(s[0]) {
        ws_tokens(s.drop_first())
    } else {
        let k = token_len(s);
        if 0 < k <= s.len() {
            seq![s.take(k as int)] + ws_tokens(s.skip(k as int))
        } else {
            seq![]
        }
    }
}

/// `i` is the first position of `c` in `s`.
pub open spec fn is_first_index(s: Seq<char>, c: char, i: int) -> bool {
    &&& 0 <= i < s.len()
    &&& s[i] == c
    &&& forall|j: int| 0 <= j < i ==> s[j] != c
}

/// What `str::split_once(c)` gives back: the parts before and after the
/// first `c`, or `None` where `c` does not occur.
pub open spec fn split_once(s: Seq<char>, c: char) -> Option<(Seq<char>, Seq<char>)> {
    if exists|i: int| is_first_index(s, c, i) {
        let i = choose|i: int| is_first_index(s, c, i);
        Some((s.take(i), s.skip(i + 1)))
    } else {
        None
    }
}

/// The part after the first `c` is shorter than the whole.
pub proof fn lemma_split_once_shorter(s: Seq<char>, c: char)
    ensures
        split_once(s, c) matches Some((a, b)) ==> b.len() < s.len() && a.len() < s.len(),
{
    if exists|i: int| is_first_index(s, c, i) {
        let i = choose|i: int| is_first_index(s, c, i);
        assert(is_first_index(s, c, i));
    }
}

/// The pieces of `s` between commas, as `str::split(',')` yields them.
pub open spec fn comma_pieces(s: Seq<char>) -> Seq<Seq<char>>
    decreases s.len(),
{
    match split_once(s, ',') {
        Some((a, b)) => if b.len() < s.len() {
            seq![a] + comma_pieces(b)
        } else {
            seq![]
        },
        None => seq![s],
    }
}

/// The code of `c` after ASCII lower-casing: `'A'..='Z'` map to `'a'..='z'`,
/// every other character stays.
pub open spec fn lower_code(c: char) -> u32 {
    if 'A' <= c && c <= 'Z' {
        (c as u32 + 32) as u32
    } else {
        c as u32
    }
}

/// Equality up to ASCII case, as `eq_ignore_ascii_case` decides it.
pub open spec fn eq_ignore_ascii_case(a: Seq<char>, b: Seq<char>) -> bool {
    &&& a.len() == b.len()
    &&& forall|i: int| 0 <= i < a.len() ==> lower_code(a[i]) == lower_code(b[i])
}

/// The UTF-8 bytes of an ASCII text, one byte per character.
pub open spec fn ascii_bytes_of(s: Seq<char>) -> Seq<u8> {
    s.map_values(|c: char| c as u8)
}

/// The bytes of an ASCII text literal.
pub fn ascii_bytes(s: &'static str) -> (r: &'static [u8])
    requires
        vstd::string::is_ascii(s),
    ensures
        r@ == ascii_bytes_of(s@),
{
    proof {
        broadcast use vstd::string::is_ascii_spec_bytes;
    }
    let r = s.as_bytes();
    assert(r@ =~= ascii_bytes_of(s@));
    r
}

pub fn is_ascii_whitespace(c: char) -> (r: bool)
    ensures
        r == is_ascii_ws(c),
{
    c == ' ' || c == '\t' || c == '\n' || c == '\x0C' || c == '\r'
}

pub fn is_whitespace(c: char) -> (r: bool)
    ensures
        r == is_ws(c),
{
    ('\t' <= c && c <= '\r') || c == ' ' || c == '\u{85}' || c == '\u{A0}' || c == '\u{1680}'
        || ('\u{2000}' <= c && c <= '\u{200A}') || c == '\u{2028}' || c == '\u{2029}' || c
        == '\u{202F}' || c == '\u{205F}' || c == '\u{3000}'
}

proof fn lemma_trim_front_step(s: Seq<char>, i: int)
    requires
        0 <= i < s.len(),
        is_ws(s[i]),
    ensures
        trim_front(s.subrange(i, s.len() as int)) == trim_front(s.subrange(i + 1, s.len() as int)),
{
    assert(s.subrange(i, s.len() as int).drop_first() =~= s.subrange(i + 1, s.len() as int));
}

proof fn lemma_trim_back_step(s: Seq<char>, j: int)
    requires
        0 < j <= s.len(),
        is_ws(s[j - 1]),
    ensures
        trim_back(s.subrange(0, j)) == trim_back(s.subrange(0, j - 1)),
{
    assert(s.subrange(0, j).drop_last() =~= s.subrange(0, j - 1));
}

/// The text without leading and trailing whitespace, as `str::trim` gives it.
pub fn trim(s: &str) -> (r: &str)
    ensures
        r@ == trimmed(s@),
{
    let n = s.unicode_len();
    let mut i: usize = 0;
    assert(s@ =~= s@.subrange(0, n as int));
    while i < n && is_whitespace(s.get_char(i))
        invariant
            n == s@.len(),
            i <= n,
            trim_front(s@) == trim_front(s@.subrange(i as int, n as int)),
        decreases n - i,
    {
        proof {
            lemma_trim_front_step(s@, i as int);
        }
        i = i + 1;
    }
    let ghost front = s@.subrange(i as int, n as int);
    assert(trim_front(s@) == front);
    let mut j: usize = n;
    while j > i && is_whitespace(s.get_char(j - 1))
        invariant
            n == s@.len(),
            i <= j <= n,
            front == s@.subrange(i as int, n as int),
            trim_back(front) == trim_back(s@.subrange(i as int, j as int)),
        decreases j,
    {
        proof {
            let t = s@.subrange(i as int, n as int);
            assert(s@.subrange(i as int, j as int) =~= t.subrange(0, j - i));
            assert(s@.subrange(i as int, j - 1) =~= t.subrange(0, j - 1 - i));
            assert(t[j - 1 - i] == s@[j - 1]);
            lemma_trim_back_step(t, j - i);
            assert(front =~= t.subrange(0, n - i));
        }
        j = j - 1;
    }
    s.substring_char(i, j)
}

/// The text with every trailing `"\r\n"` removed.
pub fn trim_end_crlf(s: &str) -> (r: &str)
    ensures
        r@ == strip_crlf(s@),
{
    let n = s.unicode_len();
    let mut j: usize = n;
    assert(s@ =~= s@.subrange(0, n as int));
    while j >= 2 && s.get_char(j - 2) == '\r' && s.get_char(j - 1) == '\n'
        invariant
            n == s@.len(),
            j <= n,
            strip_crlf(s@) == strip_crlf(s@.subrange(0, j as int)),
        decreases j,
    {
        assert(s@.subrange(0, j as int).subrange(0, j - 2) =~= s@.subrange(0, j - 2));
        j = j - 2;
    }
    s.substring_char(0, j)
}

/// Whether the two texts hold the same characters.
pub fn str_eq(a: &str, b: &str) -> (r: bool)
    ensures
        r == (a@ == b@),
{
    let n = a.unicode_len();
    let m = b.unicode_len();
    if n != m {
        return false;
    }
    let mut i: usize = 0;
    while i < n
        invariant
            n == a@.len(),
            n == b@.len(),
            i <= n,
            forall|j: int| 0 <= j < i ==> a@[j] == b@[j],
        decreases n - i,
    {
        if a.get_char(i) != b.get_char(i) {
            return false;
        }
        i = i + 1;
    }
    assert(a@ =~= b@);
    true
}

/// Whether `s` begins with `prefix`.
pub fn starts_with(s: &str, prefix: &str) -> (r: bool)
    ensures
        r == (prefix@.len() <= s@.len() && s@.take(prefix@.len() as int) == prefix@),
{
    let n = s.unicode_len();
    let m = prefix.unicode_len();
    if m > n {
        return false;
    }
    let mut i: usize = 0;
    while i < m
        invariant
            n == s@.len(),
            m == prefix@.len(),
            m <= n,
            i <= m,
            forall|j: int| 0 <= j < i ==> s@[j] == prefix@[j],
        decreases m - i,
    {
        if s.get_char(i) != prefix.get_char(i) {
            assert(s@.take(m as int)[i as int] != prefix@[i as int]);
            return false;
        }
        i = i + 1;
    }
    assert(s@.take(m as int) =~= prefix@);
    true
}

fn lower_code_of(c: char) -> (r: u32)
    ensures
        r == lower_code(c),
{
    if 'A' <= c && c <= 'Z' {
        c as u32 + 32
    } else {
        c as u32
    }
}

/// Whether the two texts are equal up to ASCII case.
pub fn str_eq_ignore_ascii_case(a: &str, b: &str) -> (r: bool)
    ensures
        r == eq_ignore_ascii_case(a@, b@),
{
    let n = a.unicode_len();
    let m = b.unicode_len();
    if n != m {
        return false;
    }
    let mut i: usize = 0;
    while i < n
        invariant
            n == a@.len(),
            n == b@.len(),
            i <= n,
            forall|j: int| 0 <= j < i ==> lower_code(a@[j]) == lower_code(b@[j]),
        decreases n - i,
    {
        if lower_code_of(a.get_char(i)) != lower_code_of(b.get_char(i)) {
            return false;
        }
        i = i + 1;
    }
    true
}

/// The parts of `s` before and after the first `c`, if `c` occurs.
pub fn split_once_char(s: &str, c: char) -> (r: Option<(&str, &str)>)
    ensures
        match (r, split_once(s@, c)) {
            (Some((a, b)), Some((x, y))) => a@ == x && b@ == y,
            (None, None) => true,
            _ => false,
        },
{
    let n = s.unicode_len();
    let mut i: usize = 0;
    while i < n
        invariant
            n == s@.len(),
            i <= n,
            forall|j: int| 0 <= j < i ==> s@[j] != c,
        decreases n - i,
    {
        if s.get_char(i) == c {
            proof {
                assert(is_first_index(s@, c, i as int));
                let k = choose|k: int| is_first_index(s@, c, k);
                assert(k == i as int) by {
                    if k < i {
                    } else if k > i {
                        assert(s@[i as int] != c);
                    }
                }
            }
            let before = s.substring_char(0, i);
            let after = s.substring_char(i + 1, n);
            assert(before@ =~= s@.take(i as int));
            assert(after@ =~= s@.skip(i + 1));
            return Some((before, after));
        }
        i = i + 1;
    }
    assert(!exists|k: int| is_first_index(s@, c, k));
    None
}

pub proof fn lemma_token_len(t: Seq<char>, k: int)
    requires
        0 <= k <= t.len(),
        forall|m: int| 0 <= m < k ==> !is_ascii_ws(#[trigger] t[m]),
        k == t.len() || is_ascii_ws(t[k]),
    ensures
        token_len(t) == k,
    decreases k,
{
    if k > 0 {
        let u = t.drop_first();
        assert forall|m: int| 0 <= m < k - 1 implies !is_ascii_ws(#[trigger] u[m]) by {
            assert(u[m] == t[m + 1]);
        }
        lemma_token_len(u, k - 1);
    }
}

/// The pieces of `s` between runs of ASCII whitespace, as
/// `str::split_ascii_whitespace` yields them.
pub fn split_ascii_whitespace(s: &str) -> (r: Vec<&str>)
    ensures
        r@.map_values(|t: &str| t@) == ws_tokens(s@),
{
    let n = s.unicode_len();
    let mut out: Vec<&str> = Vec::new();
    let mut i: usize = 0;
    assert(s@.skip(0) =~= s@);
    while i < n
        invariant
            n == s@.len(),
            i <= n,
            ws_tokens(s@) == out@.map_values(|t: &str| t@) + ws_tokens(s@.skip(i as int)),
        decreases n - i,
    {
        let ghost rest = s@.skip(i as int);
        if is_ascii_whitespace(s.get_char(i)) {
            assert(rest.drop_first() =~= s@.skip(i + 1));
            i = i + 1;
        } else {
            let mut j: usize = i + 1;
            while j < n && !is_ascii_whitespace(s.get_char(j))
                invariant
                    n == s@.len(),
                    i < j <= n,
                    forall|m: int| i <= m < j ==> !is_ascii_ws(#[trigger] s@[m]),
                decreases n - j,
            {
                j = j + 1;
            }
            proof {
                assert forall|m: int| 0 <= m < j - i implies !is_ascii_ws(#[trigger] rest[m]) by {
                    assert(rest[m] == s@[i + m]);
                }
                lemma_token_len(rest, j - i);
                assert(rest.take(j - i) =~= s@.subrange(i as int, j as int));
                assert(rest.skip(j - i) =~= s@.skip(j as int));
            }
            let piece = s.substring_char(i, j);
            let ghost before = out@.map_values(|t: &str| t@);
            out.push(piece);
            assert(out@.map_values(|t: &str| t@) =~= before.push(piece@));
            assert(seq![rest.take(j - i)] + ws_tokens(rest.skip(j - i)) =~= seq![piece@] + ws_tokens(
                s@.skip(j as int),
            ));
            assert(before + (seq![piece@] + ws_tokens(s@.skip(j as int))) =~= before.push(piece@)
                + ws_tokens(s@.skip(j as int)));
            i = j;
        }
    }
    assert(s@.skip(n as int) =~= Seq::<char>::empty());
    assert(out@.map_values(|t: &str| t@) + Seq::<Seq<char>>::empty() =~= out@.map_values(
        |t: &str| t@,
    ));
    out
}

} // verus!

verus! {

/// A run of non-whitespace characters is a single piece.
pub proof fn lemma_ws_tokens_single(a: Seq<char>)
    requires
        a.len() > 0,
        forall|i: int| 0 <= i < a.len() ==> !is_ascii_ws(#[trigger] a[i]),
    ensures
        ws_tokens(a) == seq![a],
{
    lemma_token_len(a, a.len() as int);
    assert(a.take(a.len() as int) =~= a);
    assert(a.skip(a.len() as int) =~= Seq::<char>::empty());
    assert(ws_tokens(a.skip(a.len() as int)) == Seq::<Seq<char>>::empty());
    assert(!is_ascii_ws(a[0]));
    assert(seq![a] + Seq::<Seq<char>>::empty() =~= seq![a]);
}

/// A run of non-whitespace characters followed by a space is the first
/// piece; the pieces of what follows come after it.
pub proof fn lemma_ws_tokens_cons(a: Seq<char>, rest: Seq<char>)
    requires
        a.len() > 0,
        forall|i: int| 0 <= i < a.len() ==> !is_ascii_ws(#[trigger] a[i]),
    ensures
        ws_tokens(a + seq![' '] + rest) == seq![a] + ws_tokens(rest),
{
    let s = a + seq![' '] + rest;
    assert forall|i: int| 0 <= i < a.len() implies !is_ascii_ws(#[trigger] s[i]) by {
        assert(s[i] == a[i]);
    }
    lemma_token_len(s, a.len() as int);
    assert(s.take(a.len() as int) =~= a);
    let tail = s.skip(a.len() as int);
    assert(tail =~= seq![' '] + rest);
    assert(tail.drop_first() =~= rest);
    assert(ws_tokens(tail) == ws_tokens(rest));
}

} // verus!

verus! {

proof fn lemma_trim_front_shape(s: Seq<char>)
    ensures
        trim_front(s).len() == 0 || !is_ws(trim_front(s)[0]),
    decreases s.len(),
{
    if s.len() > 0 && is_ws(s[0]) {
        lemma_trim_front_shape(s.drop_first());
    }
}

proof fn lemma_trim_back_shape(t: Seq<char>)
    ensures
        trim_back(t).len() <= t.len(),
        trim_back(t) == t.take(trim_back(t).len() as int),
        trim_back(t).len() == 0 || !is_ws(trim_back(t).last()),
    decreases t.len(),
{
    if t.len() > 0 && is_ws(t.last()) {
        lemma_trim_back_shape(t.drop_last());
        let r = trim_back(t.drop_last());
        assert(t.drop_last().take(r.len() as int) =~= t.take(r.len() as int));
    } else {
        assert(t.take(t.len() as int) =~= t);
    }
}

/// Trimming twice is trimming once: a trimmed text has no whitespace at
/// either end.
pub proof fn lemma_trim_idempotent(s: Seq<char>)
    ensures
        trimmed(trimmed(s)) == trimmed(s),
{
    let f = trim_front(s);
    let r = trim_back(f);
    lemma_trim_front_shape(s);
    lemma_trim_back_shape(f);
    if r.len() > 0 {
        assert(r[0] == f[0]);
        assert(trim_front(r) == r);
        assert(trim_back(r) == r);
    } else {
        assert(trim_front(r) == r);
        assert(trim_back(r) == r);
    }
}

} // verus!

verus! {

/// Where `c` is ASCII whitespace inserted at the start or end of `a + b`, or
/// next to whitespace already there.
pub open spec fn ws_insert_ok(a: Seq<char>, c: char, b: Seq<char>) -> bool {
    &&& is_ascii_ws(c)
    &&& (a.len() == 0 || is_ascii_ws(a.last()) || b.len() == 0 || is_ascii_ws(b[0]))
}

/// Inserting ASCII whitespace at either end of a text, or next to whitespace
/// already in it, leaves its pieces unchanged. Any change that only replaces
/// runs of ASCII whitespace with other non-empty runs, or adds or removes
/// ASCII whitespace at the ends, is a chain of such insertions and their
/// inverses, so it keeps the pieces too.
pub proof fn lemma_ws_tokens_insert_ws(a: Seq<char>, c: char, b: Seq<char>)
    requires
        ws_insert_ok(a, c, b),
    ensures
        ws_tokens(a + seq![c] + b) == ws_tokens(a + b),
    decreases a.len(),
{
    let s = a + seq![c] + b;
    let t = a + b;
    if a.len() == 0 {
        assert(t =~= b);
        assert(s[0] == c);
        assert(s.drop_first() =~= b);
    } else if is_ascii_ws(a[0]) {
        assert(s[0] == a[0]);
        assert(t[0] == a[0]);
        let a1 = a.drop_first();
        if a1.len() > 0 {
            assert(a1.last() == a.last());
        }
        lemma_ws_tokens_insert_ws(a1, c, b);
        assert(s.drop_first() =~= a1 + seq![c] + b);
        assert(t.drop_first() =~= a1 + b);
    } else {
        lemma_token_len_props(a);
        let jj = token_len(a) as int;
        assert(s[0] == a[0]);
        assert(t[0] == a[0]);
        assert forall|m: int| 0 <= m < jj implies !is_ascii_ws(#[trigger] s[m]) by {
            assert(s[m] == a[m]);
        }
        assert forall|m: int| 0 <= m < jj implies !is_ascii_ws(#[trigger] t[m]) by {
            assert(t[m] == a[m]);
        }
        if jj < a.len() {
            assert(s[jj] == a[jj]);
            assert(t[jj] == a[jj]);
            lemma_token_len(s, jj);
            lemma_token_len(t, jj);
            let a2 = a.skip(jj);
            assert(a2.last() == a.last());
            lemma_ws_tokens_insert_ws(a2, c, b);
            assert(s.take(jj) =~= t.take(jj));
            assert(s.skip(jj) =~= a2 + seq![c] + b);
            assert(t.skip(jj) =~= a2 + b);
            assert(ws_tokens(s) == seq![s.take(jj)] + ws_tokens(s.skip(jj)));
            assert(ws_tokens(t) == seq![t.take(jj)] + ws_tokens(t.skip(jj)));
        } else {
            assert(s[jj] == c);
            lemma_token_len(s, jj);
            if b.len() > 0 {
                assert(t[jj] == b[0]);
            }
            lemma_token_len(t, jj);
            assert(s.take(jj) =~= t.take(jj));
            let rest = s.skip(jj);
            assert(rest =~= seq![c] + b);
            assert(rest.drop_first() =~= b);
            assert(rest[0] == c);
            assert(ws_tokens(rest) == ws_tokens(b));
            assert(t.skip(jj) =~= b);
            assert(ws_tokens(s) == seq![s.take(jj)] + ws_tokens(s.skip(jj)));
            assert(ws_tokens(t) == seq![t.take(jj)] + ws_tokens(t.skip(jj)));
        }
    }
}

proof fn lemma_token_len_props(a: Seq<char>)
    ensures
        token_len(a) <= a.len(),
        forall|m: int| 0 <= m < token_len(a) ==> !is_ascii_ws(#[trigger] a[m]),
        token_len(a) == a.len() || is_ascii_ws(a[token_len(a) as int]),
        a.len() > 0 && !is_ascii_ws(a[0]) ==> token_len(a) > 0,
    decreases a.len(),
{
    if a.len() > 0 && !is_ascii_ws(a[0]) {
        let a1 = a.drop_first();
        lemma_token_len_props(a1);
        assert forall|m: int| 0 <= m < token_len(a) implies !is_ascii_ws(#[trigger] a[m]) by {
            if m > 0 {
                assert(a[m] == a1[m - 1]);
            }
        }
        if token_len(a) < a.len() {
            assert(a[token_len(a) as int] == a1[token_len(a1) as int]);
        }
    }
}

} // verus!

verus! {

/// Where `c` occurs in `s`, it has a first position.
pub proof fn lemma_first_index_exists(s: Seq<char>, c: char, j: int)
    requires
        0 <= j < s.len(),
        s[j] == c,
    ensures
        exists|i: int| is_first_index(s, c, i),
    decreases j,
{
    if exists|m: int| 0 <= m < j && s[m] == c {
        let m = choose|m: int| 0 <= m < j && s[m] == c;
        lemma_first_index_exists(s, c, m);
    } else {
        assert(is_first_index(s, c, j));
    }
}

/// The pieces joined back together with a comma between each two.
pub open spec fn join_with_commas(ps: Seq<Seq<char>>) -> Seq<char>
    decreases ps.len(),
{
    if ps.len() == 0 {
        seq![]
    } else if ps.len() == 1 {
        ps[0]
    } else {
        ps[0] + seq![','] + join_with_commas(ps.drop_first())
    }
}

/// Splitting at commas loses nothing and keeps no comma: there is at least
/// one piece, no piece holds a comma, and joining the pieces with commas
/// gives the text back. These three facts fix the pieces uniquely.
pub proof fn lemma_comma_pieces_split(s: Seq<char>)
    ensures
        comma_pieces(s).len() >= 1,
        forall|i: int, j: int|
            0 <= i < comma_pieces(s).len() && 0 <= j < comma_pieces(s)[i].len() ==> #[trigger] comma_pieces(
                s,
            )[i][j] != ',',
        join_with_commas(comma_pieces(s)) == s,
    decreases s.len(),
{
    lemma_split_once_shorter(s, ',');
    if exists|i: int| is_first_index(s, ',', i) {
        let i = choose|i: int| is_first_index(s, ',', i);
        let a = s.take(i);
        let b = s.skip(i + 1);
        assert(split_once(s, ',') == Some((a, b)));
        lemma_comma_pieces_split(b);
        let ps = comma_pieces(s);
        let qs = comma_pieces(b);
        assert(ps == seq![a] + qs);
        assert(ps.drop_first() =~= qs);
        assert(ps[0] == a);
        assert(s =~= a + seq![','] + b);
        assert forall|k: int, j: int| 0 <= k < ps.len() && 0 <= j < ps[k].len() implies #[trigger] ps[k][j]
            != ',' by {
            if k == 0 {
                assert(ps[k][j] == s[j]);
            } else {
                assert(ps[k] == qs[k - 1]);
                assert(qs[k - 1][j] != ',');
            }
        }
    } else {
        assert(split_once(s, ',') is None);
        assert(comma_pieces(s) == seq![s]);
        assert forall|j: int| 0 <= j < s.len() implies s[j] != ',' by {
            if s[j] == ',' {
                lemma_first_index_exists(s, ',', j);
            }
        }
    }
}

} // verus!

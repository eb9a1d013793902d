//! Plain-text helpers shared by search, deduplication and normalization.
//!
//! All contracts are stated over the `Seq<char>` views of `&str` and
//! `String`. White space and case folding are modeled over ASCII, which is
//! all the pipeline ever feeds these helpers after normalization.

use vstd::prelude::*;

verus! {

/// Relies on `String::push`: appends exactly the given character.
#[verifier::external_body]
pub(crate) fn push_char(s: &mut String, c: char)
    ensures
        final(s)@ == old(s)@.push(c),
{
    s.push(c)
}

/// True of an ASCII upper-case letter.
pub open spec fn spec_is_upper(c: char) -> bool {
    65 <= c as u32 && c as u32 <= 90
}

/// ASCII lower-casing of one character; anything but `A`..`Z` is unchanged.
pub open spec fn spec_lower_char(c: char) -> char {
    if spec_is_upper(c) {
        ((c as u32) + 32) as char
    } else {
        c
    }
}

/// ASCII lower-casing of a whole character sequence.
pub open spec fn spec_lower(s: Seq<char>) -> Seq<char> {
    s.map_values(|c: char| spec_lower_char(c))
}

/// True of the ASCII white-space characters.
pub open spec fn spec_is_space(c: char) -> bool {
    c == ' ' || c == '\t' || c == '\n' || c == '\r' || c as u32 == 11 || c as u32 == 12
}

/// The sequence with leading white space removed.
pub open spec fn spec_trim_start(s: Seq<char>) -> Seq<char>
    decreases s.len(),
{
    if s.len() > 0 && spec_is_space(s[0]) {
        spec_trim_start(s.drop_first())
    } else {
        s
    }
}

/// The sequence with trailing white space removed.
pub open spec fn spec_trim_end(s: Seq<char>) -> Seq<char>
    decreases s.len(),
{
    if s.len() > 0 && spec_is_space(s[s.len() - 1]) {
        spec_trim_end(s.drop_last())
    } else {
        s
    }
}

/// The sequence with leading and trailing white space removed.
pub open spec fn spec_trim(s: Seq<char>) -> Seq<char> {
    spec_trim_end(spec_trim_start(s))
}

/// `needle` occurs contiguously somewhere in `hay`.
pub open spec fn spec_contains(hay: Seq<char>, needle: Seq<char>) -> bool {
    exists|i: int|
        0 <= i && i + needle.len() <= hay.len() && #[trigger] hay.subrange(i, i + needle.len())
            == needle
}

/// `s` starts with `prefix`.
pub open spec fn spec_starts_with(s: Seq<char>, prefix: Seq<char>) -> bool {
    prefix.len() <= s.len() && s.subrange(0, prefix.len() as int) == prefix
}

/// Lower-cases one character, leaving everything but `A`..`Z` unchanged.
pub fn lower_char(c: char) -> (r: char)
    ensures
        r == spec_lower_char(c),
{
    let u = c as u32;
    if 65 <= u && u <= 90 {
        ((u + 32) as u8) as char
    } else {
        c
    }
}

/// True of an ASCII white-space character.
pub fn is_space(c: char) -> (r: bool)
    ensures
        r == spec_is_space(c),
{
    let u = c as u32;
    u == 32 || u == 9 || u == 10 || u == 13 || u == 11 || u == 12
}

/// ASCII lower-cased copy of a string.
pub fn lower_str(s: &str) -> (r: String)
    ensures
        r@ == spec_lower(s@),
{
    let n = s.unicode_len();
    let mut out = String::new();
    let mut i: usize = 0;
    while i < n
        invariant
            n == s@.len(),
            i <= n,
            out@ == spec_lower(s@.subrange(0, i as int)),
        decreases n - i,
    {
        let c = s.get_char(i);
        push_char(&mut out, lower_char(c));
        proof {
            assert(s@.subrange(0, i + 1).drop_last() == s@.subrange(0, i as int));
            assert(spec_lower(s@.subrange(0, i + 1)) =~= spec_lower(
                s@.subrange(0, i as int),
            ).push(spec_lower_char(s@[i as int])));
        }
        i = i + 1;
    }
    proof {
        assert(s@.subrange(0, n as int) == s@);
    }
    out
}

/// Character-for-character equality of two string slices.
pub fn str_eq(a: &str, b: &str) -> (r: bool)
    ensures
        r == (a@ == b@),
{
    let na = a.unicode_len();
    let nb = b.unicode_len();
    if na != nb {
        proof {
            assert(a@ != b@);
        }
        return false;
    }
    let mut i: usize = 0;
    while i < na
        invariant
            na == a@.len(),
            na == b@.len(),
            i <= na,
            forall|j: int| 0 <= j < i ==> a@[j] == b@[j],
        decreases na - i,
    {
        if a.get_char(i) != b.get_char(i) {
            proof {
                assert(a@[i as int] != b@[i as int]);
            }
            return false;
        }
        i = i + 1;
    }
    proof {
        assert(a@ =~= b@);
    }
    true
}

/// Case-insensitive (ASCII) equality of two string slices.
pub fn eq_ignore_case(a: &str, b: &str) -> (r: bool)
    ensures
        r == (spec_lower(a@) == spec_lower(b@)),
{
    let la = lower_str(a);
    let lb = lower_str(b);
    str_eq(la.as_str(), lb.as_str())
}

proof fn lemma_trim_start_index(s: Seq<char>, i: int)
    requires
        0 <= i <= s.len(),
        forall|j: int| 0 <= j < i ==> spec_is_space(s[j]),
        i < s.len() ==> !spec_is_space(s[i]),
    ensures
        spec_trim_start(s) == s.subrange(i, s.len() as int),
    decreases i,
{
    if i == 0 {
        if s.len() > 0 && spec_is_space(s[0]) {
            assert(!spec_is_space(s[0]));
        }
        assert(s.subrange(0, s.len() as int) =~= s);
    } else {
        assert(spec_is_space(s[0]));
        lemma_trim_start_index(s.drop_first(), i - 1);
        assert(s.drop_first().subrange(i - 1, s.drop_first().len() as int) =~= s.subrange(
            i,
            s.len() as int,
        ));
    }
}

proof fn lemma_trim_end_index(s: Seq<char>, j: int)
    requires
        0 <= j <= s.len(),
        forall|k: int| j <= k < s.len() ==> spec_is_space(s[k]),
        j > 0 ==> !spec_is_space(s[j - 1]),
    ensures
        spec_trim_end(s) == s.subrange(0, j),
    decreases s.len() - j,
{
    if j == s.len() {
        if s.len() > 0 && spec_is_space(s[s.len() - 1]) {
            assert(!spec_is_space(s[j - 1]));
        }
        assert(s.subrange(0, s.len() as int) =~= s);
    } else {
        assert(spec_is_space(s[s.len() - 1]));
        lemma_trim_end_index(s.drop_last(), j);
        assert(s.drop_last().subrange(0, j) =~= s.subrange(0, j));
    }
}

/// Copy of a string with leading and trailing ASCII white space removed.
pub fn trim_str(s: &str) -> (r: String)
    ensures
        r@ == spec_trim(s@),
{
    let n = s.unicode_len();
    let mut start: usize = 0;
    while start < n && is_space(s.get_char(start))
        invariant
            n == s@.len(),
            start <= n,
            forall|j: int| 0 <= j < start ==> spec_is_space(s@[j]),
        decreases n - start,
    {
        start = start + 1;
    }
    let mut end: usize = n;
    while end > start && is_space(s.get_char(end - 1))
        invariant
            n == s@.len(),
            start <= end <= n,
            forall|k: int| end <= k < n ==> spec_is_space(s@[k]),
        decreases end,
    {
        end = end - 1;
    }
    proof {
        lemma_trim_start_index(s@, start as int);
        let t = s@.subrange(start as int, n as int);
        if end == start {
            lemma_trim_end_index(t, 0);
        } else {
            lemma_trim_end_index(t, end - start);
        }
        assert(t.subrange(0, end - start) =~= s@.subrange(start as int, end as int));
    }
    let mut out = String::new();
    let mut i: usize = start;
    while i < end
        invariant
            n == s@.len(),
            start <= i <= end <= n,
            out@ == s@.subrange(start as int, i as int),
        decreases end - i,
    {
        push_char(&mut out, s.get_char(i));
        proof {
            assert(s@.subrange(start as int, i + 1) =~= s@.subrange(start as int, i as int).push(
                s@[i as int],
            ));
        }
        i = i + 1;
    }
    out
}

/// True when `needle` occurs contiguously in `hay`.
pub fn contains_str(hay: &str, needle: &str) -> (r: bool)
    ensures
        r == spec_contains(hay@, needle@),
{
    let nh = hay.unicode_len();
    let nn = needle.unicode_len();
    if nn > nh {
        proof {
            assert(!spec_contains(hay@, needle@));
        }
        return false;
    }
    if nn == 0 {
        proof {
            assert(hay@.subrange(0, 0 + needle@.len() as int) =~= needle@);
        }
        return true;
    }
    let mut i: usize = 0;
    while i <= nh - nn
        invariant
            nh == hay@.len(),
            nn == needle@.len(),
            nn <= nh,
            i <= nh - nn + 1,
            1 <= nn,
            forall|p: int|
                0 <= p < i ==> #[trigger] hay@.subrange(p, p + needle@.len()) != needle@,
        decreases nh - nn - i + 1,
    {
        let mut j: usize = 0;
        let mut hit = true;
        while j < nn
            invariant
                nh == hay@.len(),
                nn == needle@.len(),
                i + nn <= nh,
                j <= nn,
                hit ==> forall|q: int| 0 <= q < j ==> hay@[i + q] == needle@[q],
                !hit ==> hay@.subrange(i as int, i + needle@.len()) != needle@,
            decreases nn - j,
        {
            if hay.get_char(i + j) != needle.get_char(j) {
                proof {
                    assert(hay@.subrange(i as int, i + needle@.len())[j as int] != needle@[j as int]);
                }
                hit = false;
                j = nn;
            } else {
                j = j + 1;
            }
        }
        if hit {
            proof {
                assert(hay@.subrange(i as int, i + needle@.len()) =~= needle@);
            }
            return true;
        }
        i = i + 1;
    }
    proof {
        assert forall|p: int| 0 <= p && p + needle@.len() <= hay@.len() implies #[trigger] hay@.subrange(
            p,
            p + needle@.len(),
        ) != needle@ by {
            assert(p < i);
        }
    }
    false
}

/// True when `s` starts with `prefix`.
pub fn starts_with_str(s: &str, prefix: &str) -> (r: bool)
    ensures
        r == spec_starts_with(s@, prefix@),
{
    let ns = s.unicode_len();
    let np = prefix.unicode_len();
    if np > ns {
        return false;
    }
    let mut j: usize = 0;
    while j < np
        invariant
            ns == s@.len(),
            np == prefix@.len(),
            np <= ns,
            j <= np,
            forall|q: int| 0 <= q < j ==> s@[q] == prefix@[q],
        decreases np - j,
    {
        if s.get_char(j) != prefix.get_char(j) {
            proof {
                assert(s@.subrange(0, prefix@.len() as int)[j as int] != prefix@[j as int]);
            }
            return false;
        }
        j = j + 1;
    }
    proof {
        assert(s@.subrange(0, prefix@.len() as int) =~= prefix@);
    }
    true
}

/// True of an ASCII letter or digit.
pub open spec fn spec_is_alnum(c: char) -> bool {
    (48 <= c as u32 && c as u32 <= 57) || (65 <= c as u32 && c as u32 <= 90) || (97 <= c as u32
        && c as u32 <= 122)
}

/// White-space splitting of `s`, with `cur` the token accumulated so far.
pub open spec fn spec_tokens_acc(s: Seq<char>, cur: Seq<char>) -> Seq<Seq<char>>
    decreases s.len(),
{
    if s.len() == 0 {
        if cur.len() == 0 {
            Seq::empty()
        } else {
            seq![cur]
        }
    } else if spec_is_space(s[0]) {
        if cur.len() == 0 {
            spec_tokens_acc(s.drop_first(), Seq::empty())
        } else {
            seq![cur] + spec_tokens_acc(s.drop_first(), Seq::empty())
        }
    } else {
        spec_tokens_acc(s.drop_first(), cur.push(s[0]))
    }
}

/// The white-space separated tokens of `s`, in order, without empty tokens.
pub open spec fn spec_tokens(s: Seq<char>) -> Seq<Seq<char>> {
    spec_tokens_acc(s, Seq::empty())
}

/// Splits a string on ASCII white space into its non-empty tokens.
pub fn split_tokens(s: &str) -> (r: Vec<String>)
    ensures
        r.deep_view() == spec_tokens(s@),
{
    let n = s.unicode_len();
    let mut out: Vec<String> = Vec::new();
    let mut cur = String::new();
    let mut i: usize = 0;
    proof {
        assert(s@.subrange(0, n as int) =~= s@);
        assert(out.deep_view() =~~= Seq::<Seq<char>>::empty());
        assert(Seq::<Seq<char>>::empty() + spec_tokens_acc(s@, Seq::empty()) =~~= spec_tokens_acc(
            s@,
            Seq::empty(),
        ));
    }
    while i < n
        invariant
            n == s@.len(),
            i <= n,
            spec_tokens(s@) == out.deep_view() + spec_tokens_acc(
                s@.subrange(i as int, n as int),
                cur@,
            ),
        decreases n - i,
    {
        let c = s.get_char(i);
        let ghost rest = s@.subrange(i as int, n as int);
        proof {
            assert(rest[0] == s@[i as int]);
            assert(rest.drop_first() =~= s@.subrange(i + 1, n as int));
        }
        if is_space(c) {
            if !cur.as_str().is_empty() {
                let ghost prev_out = out.deep_view();
                let ghost prev_cur = cur@;
                out.push(cur);
                cur = String::new();
                proof {
                    let tail = spec_tokens_acc(rest.drop_first(), Seq::empty());
                    assert(spec_tokens_acc(rest, prev_cur) == seq![prev_cur] + tail);
                    assert(out.deep_view() =~~= prev_out + seq![prev_cur]);
                    assert(prev_out + (seq![prev_cur] + tail) =~~= (prev_out + seq![prev_cur])
                        + tail);
                }
            } else {
                proof {
                    assert(cur@ =~= Seq::<char>::empty());
                }
            }
        } else {
            push_char(&mut cur, c);
        }
        i = i + 1;
    }
    proof {
        assert(s@.subrange(n as int, n as int) =~= Seq::<char>::empty());
    }
    if !cur.as_str().is_empty() {
        let ghost prev_out = out.deep_view();
        let ghost prev_cur = cur@;
        out.push(cur);
        proof {
            assert(out.deep_view() =~~= prev_out + seq![prev_cur]);
        }
    }
    proof {
        assert(out.deep_view() =~~= spec_tokens(s@));
    }
    out
}

/// One folding step of search normalization, tracking whether the last
/// emitted character was a space.
pub open spec fn spec_norm_fold(s: Seq<char>, last_space: bool) -> Seq<char>
    decreases s.len(),
{
    if s.len() == 0 {
        Seq::empty()
    } else {
        let c = s[0];
        if c == '\'' || c as u32 == 8217 || c == '`' {
            spec_norm_fold(s.drop_first(), last_space)
        } else if spec_is_alnum(c) {
            seq![spec_lower_char(c)] + spec_norm_fold(s.drop_first(), false)
        } else if !last_space {
            seq![' '] + spec_norm_fold(s.drop_first(), true)
        } else {
            spec_norm_fold(s.drop_first(), true)
        }
    }
}

/// The search-normal form of a string: apostrophes dropped, ASCII letters and
/// digits lower-cased, every other run of characters collapsed to one space,
/// and the result trimmed.
pub open spec fn spec_normalize(s: Seq<char>) -> Seq<char> {
    spec_trim(spec_norm_fold(s, false))
}

/// Normalizes free text for search: drops apostrophes (so "Mastro's" becomes
/// "mastros"), lower-cases ASCII letters, and collapses every run of other
/// characters into a single space before trimming.
pub fn normalize_for_search(value: &str) -> (r: String)
    ensures
        r@ == spec_normalize(value@),
{
    let n = value.unicode_len();
    let mut out = String::new();
    let mut last_was_space = false;
    let mut i: usize = 0;
    proof {
        assert(value@.subrange(0, n as int) =~= value@);
        assert(out@ + spec_norm_fold(value@, false) =~= spec_norm_fold(value@, false));
    }
    while i < n
        invariant
            n == value@.len(),
            i <= n,
            spec_norm_fold(value@, false) == out@ + spec_norm_fold(
                value@.subrange(i as int, n as int),
                last_was_space,
            ),
        decreases n - i,
    {
        let c = value.get_char(i);
        let ghost rest = value@.subrange(i as int, n as int);
        proof {
            assert(rest[0] == value@[i as int]);
            assert(rest.drop_first() =~= value@.subrange(i + 1, n as int));
        }
        let u = c as u32;
        if u == 39 || u == 8217 || u == 96 {
            // apostrophes vanish entirely
        } else if (48 <= u && u <= 57) || (65 <= u && u <= 90) || (97 <= u && u <= 122) {
            let ghost prev_out = out@;
            push_char(&mut out, lower_char(c));
            last_was_space = false;
            proof {
                let tail = spec_norm_fold(rest.drop_first(), false);
                assert(out@ =~= prev_out + seq![spec_lower_char(c)]);
                assert(prev_out + (seq![spec_lower_char(c)] + tail) =~= (prev_out + seq![
                    spec_lower_char(c),
                ]) + tail);
            }
        } else if !last_was_space {
            let ghost prev_out = out@;
            push_char(&mut out, ' ');
            last_was_space = true;
            proof {
                let tail = spec_norm_fold(rest.drop_first(), true);
                assert(out@ =~= prev_out + seq![' ']);
                assert(prev_out + (seq![' '] + tail) =~= (prev_out + seq![' ']) + tail);
            }
        }
        i = i + 1;
    }
    proof {
        assert(value@.subrange(n as int, n as int) =~= Seq::<char>::empty());
        assert(out@ =~= spec_norm_fold(value@, false));
    }
    trim_str(out.as_str())
}

/// The singular form of a search token: a final `s` is dropped from tokens
/// longer than four characters.
pub open spec fn spec_singular(t: Seq<char>) -> Seq<char> {
    if t.len() > 4 && t[t.len() - 1] == 's' {
        t.drop_last()
    } else {
        t
    }
}

/// Drops a trailing `s` from tokens longer than four characters, so singular
/// and plural name variants compare equal.
pub fn singularize_token(token: &str) -> (r: &str)
    ensures
        r@ == spec_singular(token@),
{
    let n = token.unicode_len();
    if n > 4 && token.get_char(n - 1) == 's' {
        let r = token.substring_char(0, n - 1);
        proof {
            assert(token@.subrange(0, n - 1) =~= token@.drop_last());
        }
        r
    } else {
        token
    }
}

/// Two search tokens match when they are equal, equal after singularization,
/// or one contains the other and both have at least four characters.
pub open spec fn spec_tokens_match(candidate: Seq<char>, query: Seq<char>) -> bool {
    candidate == query || spec_singular(candidate) == spec_singular(query) || (candidate.len() >= 4
        && query.len() >= 4 && (spec_contains(candidate, query) || spec_contains(query, candidate)))
}

/// Token-level match used by the directory text search.
pub fn tokens_match(candidate_token: &str, query_token: &str) -> (r: bool)
    ensures
        r == spec_tokens_match(candidate_token@, query_token@),
{
    if str_eq(candidate_token, query_token) {
        return true;
    }
    let candidate_singular = singularize_token(candidate_token);
    let query_singular = singularize_token(query_token);
    if str_eq(candidate_singular, query_singular) {
        return true;
    }
    candidate_token.unicode_len() >= 4 && query_token.unicode_len() >= 4 && (contains_str(
        candidate_token,
        query_token,
    ) || contains_str(query_token, candidate_token))
}

/// Lexicographic order on character sequences, by code point.
pub open spec fn spec_str_le(a: Seq<char>, b: Seq<char>) -> bool
    decreases a.len(),
{
    if a.len() == 0 {
        true
    } else if b.len() == 0 {
        false
    } else if (a[0] as u32) < (b[0] as u32) {
        true
    } else if (a[0] as u32) > (b[0] as u32) {
        false
    } else {
        spec_str_le(a.drop_first(), b.drop_first())
    }
}

/// The lexicographic order is total.
pub proof fn lemma_str_le_total(a: Seq<char>, b: Seq<char>)
    ensures
        spec_str_le(a, b) || spec_str_le(b, a),
    decreases a.len(),
{
    if a.len() > 0 && b.len() > 0 && (a[0] as u32) == (b[0] as u32) {
        lemma_str_le_total(a.drop_first(), b.drop_first());
    }
}

/// The lexicographic order is transitive.
pub proof fn lemma_str_le_trans(a: Seq<char>, b: Seq<char>, c: Seq<char>)
    requires
        spec_str_le(a, b),
        spec_str_le(b, c),
    ensures
        spec_str_le(a, c),
    decreases a.len(),
{
    if a.len() > 0 && b.len() > 0 && c.len() > 0 && (a[0] as u32) == (b[0] as u32) && (b[0] as u32)
        == (c[0] as u32) {
        lemma_str_le_trans(a.drop_first(), b.drop_first(), c.drop_first());
    }
}

/// Compares two strings in lexicographic code-point order.
pub fn str_le(a: &str, b: &str) -> (r: bool)
    ensures
        r == spec_str_le(a@, b@),
{
    let na = a.unicode_len();
    let nb = b.unicode_len();
    let mut i: usize = 0;
    proof {
        assert(a@.subrange(0, na as int) =~= a@);
        assert(b@.subrange(0, nb as int) =~= b@);
    }
    loop
        invariant
            na == a@.len(),
            nb == b@.len(),
            i <= na,
            i <= nb,
            spec_str_le(a@, b@) == spec_str_le(
                a@.subrange(i as int, na as int),
                b@.subrange(i as int, nb as int),
            ),
        decreases na - i,
    {
        let ghost ra = a@.subrange(i as int, na as int);
        let ghost rb = b@.subrange(i as int, nb as int);
        if i == na {
            proof {
                assert(ra.len() == 0);
            }
            return true;
        }
        if i == nb {
            proof {
                assert(ra.len() > 0 && rb.len() == 0);
            }
            return false;
        }
        let ca = a.get_char(i);
        let cb = b.get_char(i);
        proof {
            assert(ra[0] == a@[i as int]);
            assert(rb[0] == b@[i as int]);
            assert(ra.drop_first() =~= a@.subrange(i + 1, na as int));
            assert(rb.drop_first() =~= b@.subrange(i + 1, nb as int));
        }
        if (ca as u32) < (cb as u32) {
            return true;
        }
        if (ca as u32) > (cb as u32) {
            return false;
        }
        i = i + 1;
    }
}

/// Lower-casing keeps the length of a sequence.
pub proof fn lemma_lower_len(s: Seq<char>)
    ensures
        spec_lower(s).len() == s.len(),
{
}

/// Lower-casing is idempotent.
pub proof fn lemma_lower_idempotent(s: Seq<char>)
    ensures
        spec_lower(spec_lower(s)) == spec_lower(s),
{
    assert(spec_lower(spec_lower(s)) =~= spec_lower(s)) by {
        assert forall|i: int| 0 <= i < s.len() implies spec_lower(spec_lower(s))[i] == spec_lower(
            s,
        )[i] by {
            assert(spec_lower_char(spec_lower_char(s[i])) == spec_lower_char(s[i]));
        }
    }
}

} // verus!

use vstd::prelude::*;

verus! {

/// The whitespace characters recognized when splitting and trimming
/// protocol lines.
pub open spec fn is_space(c: char) -> bool {
    c == ' ' || c == '\t' || c == '\r' || c == '\n'
}

fn is_space_char(c: char) -> (r: bool)
    ensures
        r == is_space(c),
{
    c == ' ' || c == '\t' || c == '\r' || c == '\n'
}

/// ASCII case folding of a single character: uppercase letters map to their
/// lowercase counterparts, everything else is unchanged.
pub open spec fn lower_char(c: char) -> char {
    if 65 <= c as u32 && c as u32 <= 90 {
        (c as u32 + 32) as char
    } else {
        c
    }
}

/// ASCII case folding of a character sequence.
pub open spec fn lower(s: Seq<char>) -> Seq<char> {
    Seq::new(s.len(), |i: int| lower_char(s[i]))
}

/// A sequence without uppercase ASCII letters folds to itself.
pub proof fn lemma_lower_fixed(s: Seq<char>)
    requires
        forall|i: int| 0 <= i < s.len() ==> !(65 <= #[trigger] (s[i] as u32) <= 90),
    ensures
        lower(s) == s,
{
    assert(lower(s) =~= s);
}

fn lower_char_exec(c: char) -> (r: char)
    ensures
        r == lower_char(c),
{
    let u = c as u32;
    if 65 <= u && u <= 90 {
        let b = (c as u8) + 32;
        let r = b as char;
        proof {
            vstd::utf8::char_u32_cast(r, r as u32);
            vstd::utf8::char_u32_cast(lower_char(c), r as u32);
        }
        r
    } else {
        c
    }
}

/// Character-for-character equality of two string slices.
pub fn str_eq(a: &str, b: &str) -> (r: bool)
    ensures
        r == (a@ == b@),
{
    let alen = a.unicode_len();
    let blen = b.unicode_len();
    if alen != blen {
        return false;
    }
    let mut i: usize = 0;
    while i < alen
        invariant
            alen == a@.len(),
            blen == b@.len(),
            alen == blen,
            i <= alen,
            forall|j: int| 0 <= j < i ==> a@[j] == b@[j],
        decreases alen - i,
    {
        if a.get_char(i) != b.get_char(i) {
            return false;
        }
        i += 1;
    }
    proof {
        assert(a@ =~= b@);
    }
    true
}

/// Equality of two string slices up to ASCII case folding.
pub fn str_eq_fold(a: &str, b: &str) -> (r: bool)
    ensures
        r == (lower(a@) == lower(b@)),
{
    let alen = a.unicode_len();
    let blen = b.unicode_len();
    if alen != blen {
        assert(lower(a@).len() != lower(b@).len());
        return false;
    }
    let mut i: usize = 0;
    while i < alen
        invariant
            alen == a@.len(),
            blen == b@.len(),
            alen == blen,
            i <= alen,
            forall|j: int| 0 <= j < i ==> lower(a@)[j] == lower(b@)[j],
        decreases alen - i,
    {
        if lower_char_exec(a.get_char(i)) != lower_char_exec(b.get_char(i)) {
            assert(lower(a@)[i as int] != lower(b@)[i as int]);
            return false;
        }
        i += 1;
    }
    proof {
        assert(lower(a@) =~= lower(b@));
    }
    true
}

/// `p` is a prefix of `s`.
pub open spec fn has_prefix(s: Seq<char>, p: Seq<char>) -> bool {
    p.len() <= s.len() && forall|i: int| 0 <= i < p.len() ==> s[i] == p[i]
}

/// Whether `s` starts with `p`, as the routing rules use it.
pub fn str_starts_with(s: &str, p: &str) -> (r: bool)
    ensures
        r == has_prefix(s@, p@),
{
    let slen = s.unicode_len();
    let plen = p.unicode_len();
    if plen > slen {
        return false;
    }
    let mut i: usize = 0;
    while i < plen
        invariant
            slen == s@.len(),
            plen == p@.len(),
            plen <= slen,
            i <= plen,
            forall|j: int| 0 <= j < i ==> s@[j] == p@[j],
        decreases plen - i,
    {
        if s.get_char(i) != p.get_char(i) {
            return false;
        }
        i += 1;
    }
    true
}

/// `n` occurs in `h` starting at index `i`.
pub open spec fn matches_at(h: Seq<char>, n: Seq<char>, i: int) -> bool {
    0 <= i && i + n.len() <= h.len() && forall|j: int| 0 <= j < n.len() ==> h[i + j] == n[j]
}

/// `n` occurs somewhere in `h` as a contiguous subsequence.
pub open spec fn contains_seq(h: Seq<char>, n: Seq<char>) -> bool {
    exists|i: int| matches_at(h, n, i)
}

/// Whether the string `h` contains `n` as a substring.
pub fn str_contains(h: &str, n: &str) -> (r: bool)
    ensures
        r == contains_seq(h@, n@),
{
    let hlen = h.unicode_len();
    let nlen = n.unicode_len();
    if nlen > hlen {
        return false;
    }
    let mut i: usize = 0;
    while i <= hlen - nlen
        invariant
            hlen == h@.len(),
            nlen == n@.len(),
            nlen <= hlen,
            i <= hlen - nlen + 1,
            forall|k: int| 0 <= k < i ==> !matches_at(h@, n@, k),
        decreases hlen - i,
    {
        let mut j: usize = 0;
        let mut hit = true;
        while j < nlen
            invariant
                hlen == h@.len(),
                nlen == n@.len(),
                i + nlen <= hlen,
                j <= nlen,
                hit ==> forall|k: int| 0 <= k < j ==> h@[i + k] == n@[k],
                !hit ==> !matches_at(h@, n@, i as int),
            decreases nlen - j,
        {
            if h.get_char(i + j) != n.get_char(j) {
                hit = false;
                j = nlen;
            } else {
                j += 1;
            }
        }
        if hit {
            assert(matches_at(h@, n@, i as int));
            return true;
        }
        i += 1;
    }
    proof {
        assert forall|k: int| !matches_at(h@, n@, k) by {
            if 0 <= k && k + n@.len() <= h@.len() {
                assert(k < i);
            }
        }
    }
    false
}

/// Index where the final `/`-separated segment of `s` begins: just past the
/// last `/`, or `0` when `s` holds no `/`.
pub open spec fn last_segment_start(s: Seq<char>) -> int
    decreases s.len(),
{
    if s.len() == 0 {
        0
    } else if s[s.len() - 1] == '/' {
        s.len() as int
    } else {
        last_segment_start(s.drop_last())
    }
}

/// The final `/`-separated segment of `s` (possibly empty).
pub open spec fn last_segment(s: Seq<char>) -> Seq<char> {
    s.subrange(last_segment_start(s), s.len() as int)
}

/// The final `/`-separated segment of a string, as a fresh `String`.
pub fn str_last_segment(s: &str) -> (r: String)
    ensures
        r@ == last_segment(s@),
{
    let len = s.unicode_len();
    let mut i: usize = len;
    let mut found = false;
    proof {
        assert(s@.subrange(0, len as int) =~= s@);
    }
    while i > 0 && !found
        invariant
            len == s@.len(),
            i <= len,
            found ==> 0 < i && s@[i - 1] == '/' && last_segment_start(s@) == i as int,
            !found ==> last_segment_start(s@) == last_segment_start(s@.subrange(0, i as int)),
        decreases i, (if found { 0int } else { 1int }),
    {
        proof {
            assert(s@.subrange(0, i as int).drop_last() =~= s@.subrange(0, i as int - 1));
            assert(s@.subrange(0, i as int).last() == s@[i as int - 1]);
        }
        if s.get_char(i - 1) == '/' {
            found = true;
        } else {
            i -= 1;
        }
    }
    proof {
        if !found {
            assert(s@.subrange(0, 0) =~= Seq::<char>::empty());
        }
        assert(last_segment_start(s@) == i as int);
    }
    let seg = s.substring_char(i, len);
    seg.to_owned()
}

/// Every character of `s` is whitespace (true of the empty sequence).
pub open spec fn all_spaces(s: Seq<char>) -> bool {
    forall|i: int| 0 <= i < s.len() ==> is_space(s[i])
}

/// Whether a line is blank once trimmed, the condition that ends the header
/// section.
pub fn str_is_blank(s: &str) -> (r: bool)
    ensures
        r == all_spaces(s@),
{
    let len = s.unicode_len();
    let mut i: usize = 0;
    while i < len
        invariant
            len == s@.len(),
            i <= len,
            forall|j: int| 0 <= j < i ==> is_space(s@[j]),
        decreases len - i,
    {
        if !is_space_char(s.get_char(i)) {
            return false;
        }
        i += 1;
    }
    true
}

/// First index at or after `i` holding a character that is not whitespace,
/// or the length of `s`.
pub open spec fn skip_spaces(s: Seq<char>, i: int) -> int
    decreases s.len() - i,
{
    if i < 0 || i >= s.len() || !is_space(s[i]) {
        i
    } else {
        skip_spaces(s, i + 1)
    }
}

/// First index at or after `i` holding whitespace, or the length of `s`.
pub open spec fn scan_token(s: Seq<char>, i: int) -> int
    decreases s.len() - i,
{
    if i < 0 || i >= s.len() || is_space(s[i]) {
        i
    } else {
        scan_token(s, i + 1)
    }
}

/// Index of the first occurrence of `c` at or after `i`, or `-1`.
pub open spec fn find_from(s: Seq<char>, c: char, i: int) -> int
    decreases s.len() - i,
{
    if i < 0 || i >= s.len() {
        -1
    } else if s[i] == c {
        i
    } else {
        find_from(s, c, i + 1)
    }
}

/// `s` with leading and trailing whitespace removed.
pub open spec fn trim(s: Seq<char>) -> Seq<char> {
    let a = skip_spaces(s, 0);
    let b = rtrim_end(s, s.len() as int);
    if a <= b {
        s.subrange(a, b)
    } else {
        Seq::empty()
    }
}

/// Index just past the last non-whitespace character strictly before `i`,
/// or `0` when there is none.
pub open spec fn rtrim_end(s: Seq<char>, i: int) -> int
    decreases i,
{
    if i <= 0 || i > s.len() {
        0
    } else if is_space(s[i - 1]) {
        rtrim_end(s, i - 1)
    } else {
        i
    }
}

pub(crate) fn skip_spaces_exec(s: &str, from: usize) -> (r: usize)
    requires
        from <= s@.len(),
    ensures
        r == skip_spaces(s@, from as int),
        from <= r <= s@.len(),
{
    let len = s.unicode_len();
    let mut i: usize = from;
    while i < len && is_space_char(s.get_char(i))
        invariant
            len == s@.len(),
            from <= i <= len,
            skip_spaces(s@, from as int) == skip_spaces(s@, i as int),
        decreases len - i,
    {
        i += 1;
    }
    i
}

pub(crate) fn scan_token_exec(s: &str, from: usize) -> (r: usize)
    requires
        from <= s@.len(),
    ensures
        r == scan_token(s@, from as int),
        from <= r <= s@.len(),
{
    let len = s.unicode_len();
    let mut i: usize = from;
    while i < len && !is_space_char(s.get_char(i))
        invariant
            len == s@.len(),
            from <= i <= len,
            scan_token(s@, from as int) == scan_token(s@, i as int),
        decreases len - i,
    {
        i += 1;
    }
    i
}

/// Index of the first occurrence of `c` in `s`, or `-1`.
pub fn str_find(s: &str, c: char) -> (r: Option<usize>)
    ensures
        match r {
            Some(i) => find_from(s@, c, 0) == i as int && i < s@.len(),
            None => find_from(s@, c, 0) == -1,
        },
{
    let len = s.unicode_len();
    let mut i: usize = 0;
    while i < len
        invariant
            len == s@.len(),
            i <= len,
            find_from(s@, c, 0) == find_from(s@, c, i as int),
        decreases len - i,
    {
        if s.get_char(i) == c {
            return Some(i);
        }
        i += 1;
    }
    None
}

/// A copy of `s` with leading and trailing whitespace removed.
pub fn str_trim(s: &str) -> (r: String)
    ensures
        r@ == trim(s@),
{
    let len = s.unicode_len();
    let a = skip_spaces_exec(s, 0);
    let mut b: usize = len;
    while b > 0 && is_space_char(s.get_char(b - 1))
        invariant
            len == s@.len(),
            b <= len,
            rtrim_end(s@, len as int) == rtrim_end(s@, b as int),
        decreases b,
    {
        b -= 1;
    }
    if a <= b {
        let t = s.substring_char(a, b);
        t.to_owned()
    } else {
        proof {
            assert(trim(s@) =~= Seq::<char>::empty());
        }
        String::new()
    }
}

/// `c` is an ASCII decimal digit.
pub open spec fn is_digit(c: char) -> bool {
    48 <= c as u32 && c as u32 <= 57
}

/// Numeric value of a digit character.
pub open spec fn digit_val(c: char) -> int {
    c as u32 - 48
}

/// `s` is one or more decimal digits.
pub open spec fn all_digits(s: Seq<char>) -> bool {
    s.len() > 0 && forall|i: int| 0 <= i < s.len() ==> is_digit(s[i])
}

/// The digit part of an unsigned decimal literal: a single leading `+` is
/// allowed and stripped, as `usize` parsing accepts it.
pub open spec fn digits_of(s: Seq<char>) -> Seq<char> {
    if s.len() > 0 && s[0] == '+' {
        s.drop_first()
    } else {
        s
    }
}

/// Value of a digit sequence read as a decimal number.
pub open spec fn dec_val(s: Seq<char>) -> nat
    decreases s.len(),
{
    if s.len() == 0 {
        0
    } else {
        (dec_val(s.drop_last()) * 10 + digit_val(s.last())) as nat
    }
}

/// `s` parses as a `usize`: an optional `+`, then digits, with a value that
/// fits.
pub open spec fn parses_as_usize(s: Seq<char>) -> bool {
    all_digits(digits_of(s)) && dec_val(digits_of(s)) <= usize::MAX
}

/// A digit prefix never exceeds the value of the whole digit sequence.
proof fn lemma_dec_val_prefix(s: Seq<char>, i: int)
    requires
        0 <= i <= s.len(),
        forall|j: int| 0 <= j < s.len() ==> is_digit(s[j]),
    ensures
        dec_val(s.subrange(0, i)) <= dec_val(s),
    decreases s.len() - i,
{
    if i < s.len() {
        lemma_dec_val_prefix(s, i + 1);
        let p = s.subrange(0, i + 1);
        assert(p.drop_last() =~= s.subrange(0, i));
        assert(p.last() == s[i]);
        assert(is_digit(s[i]));
        assert(digit_val(p.last()) >= 0);
        assert(dec_val(s.subrange(0, i)) * 10 + digit_val(p.last()) >= dec_val(s.subrange(0, i)));
    } else {
        assert(s.subrange(0, i) =~= s);
    }
}

/// Parse an unsigned decimal integer exactly as `str::parse::<usize>` does:
/// an optional leading `+`, then one or more digits, rejecting overflow.
pub fn parse_usize(s: &str) -> (r: Option<usize>)
    ensures
        match r {
            Some(n) => parses_as_usize(s@) && n == dec_val(digits_of(s@)),
            None => !parses_as_usize(s@),
        },
{
    let len = s.unicode_len();
    let mut start: usize = 0;
    if len > 0 && s.get_char(0) == '+' {
        start = 1;
    }
    if start >= len {
        return None;
    }
    let ghost d = digits_of(s@);
    proof {
        if start == 1 {
            assert(d =~= s@.subrange(1, len as int));
        } else {
            assert(d =~= s@.subrange(0, len as int));
        }
    }
    let mut n: usize = 0;
    let mut i: usize = start;
    while i < len
        invariant
            len == s@.len(),
            start <= i <= len,
            start <= 1,
            d == digits_of(s@),
            d.len() == len - start,
            forall|j: int| start <= j < i ==> is_digit(s@[j]),
            forall|j: int| 0 <= j < i - start ==> d[j] == s@[j + start],
            n == dec_val(d.subrange(0, i - start)),
        decreases len - i,
    {
        let c = s.get_char(i);
        let u = c as u32;
        if u < 48 || u > 57 {
            assert(!is_digit(d[i - start]));
            return None;
        }
        let dv: usize = (u - 48) as usize;
        proof {
            assert(d.subrange(0, i - start + 1).drop_last() =~= d.subrange(0, i as int - start));
            assert(d.subrange(0, i - start + 1).last() == s@[i as int]);
        }
        if n > (usize::MAX - dv) / 10 {
            proof {
                assert(n * 10 + dv > usize::MAX) by {
                    assert(n >= (usize::MAX - dv) / 10 + 1);
                }
                assert(dec_val(d.subrange(0, i - start + 1)) > usize::MAX);
                if all_digits(d) {
                    lemma_dec_val_prefix(d, i - start + 1);
                }
            }
            return None;
        }
        n = n * 10 + dv;
        i += 1;
    }
    proof {
        assert(d.subrange(0, i - start) =~= d);
        assert forall|j: int| 0 <= j < d.len() implies is_digit(d[j]) by {
            assert(d[j] == s@[j + start]);
        }
    }
    Some(n)
}

} // verus!

//! Character-level text primitives shared by every extractor.
//!
//! Every operation here works on sequences of `char` and is stated
//! against a spec function written in the most direct form (mostly a
//! short recursion). The extractors build their contracts out of these
//! spec functions, so `trim`, `lines`, `find` and friends mean exactly
//! what std's string methods of the same names do.

use vstd::prelude::*;

verus! {

pub assume_specification[ String::push ](s: &mut String, ch: char)
    ensures
        final(s)@ == old(s)@.push(ch),
;

pub assume_specification[ String::push_str ](s: &mut String, string: &str)
    ensures
        final(s)@ == old(s)@ + string@,
;

// ── character classes ───────────────────────────────────────────────

/// Unicode `White_Space`, the property `char::is_whitespace` tests.
pub open spec fn is_ws(c: char) -> bool {
    let u = c as u32;
    (0x9 <= u && u <= 0xD) || u == 0x20 || u == 0x85 || u == 0xA0 || u == 0x1680 || (0x2000 <= u
        && u <= 0x200A) || u == 0x2028 || u == 0x2029 || u == 0x202F || u == 0x205F || u == 0x3000
}

pub fn is_whitespace(c: char) -> (b: bool)
    ensures
        b == is_ws(c),
{
    let u = c as u32;
    (0x9 <= u && u <= 0xD) || u == 0x20 || u == 0x85 || u == 0xA0 || u == 0x1680 || (0x2000 <= u
        && u <= 0x200A) || u == 0x2028 || u == 0x2029 || u == 0x202F || u == 0x205F || u == 0x3000
}

pub open spec fn is_ascii_digit_spec(c: char) -> bool {
    '0' <= c && c <= '9'
}

pub open spec fn is_ascii_upper_spec(c: char) -> bool {
    'A' <= c && c <= 'Z'
}

pub open spec fn is_ascii_lower_spec(c: char) -> bool {
    'a' <= c && c <= 'z'
}

pub open spec fn ascii_upper_char(c: char) -> char {
    if is_ascii_lower_spec(c) {
        ((c as u32) - 32) as char
    } else {
        c
    }
}

pub open spec fn ascii_lower_char(c: char) -> char {
    if is_ascii_upper_spec(c) {
        ((c as u32) + 32) as char
    } else {
        c
    }
}

pub open spec fn ascii_upper(s: Seq<char>) -> Seq<char> {
    s.map_values(|c: char| ascii_upper_char(c))
}

pub open spec fn ascii_lower(s: Seq<char>) -> Seq<char> {
    s.map_values(|c: char| ascii_lower_char(c))
}

pub fn to_ascii_upper_char(c: char) -> (r: char)
    ensures
        r == ascii_upper_char(c),
{
    if 'a' <= c && c <= 'z' {
        let b = (c as u8) - 32;
        b as char
    } else {
        c
    }
}

pub fn to_ascii_lower_char(c: char) -> (r: char)
    ensures
        r == ascii_lower_char(c),
{
    if 'A' <= c && c <= 'Z' {
        let b = (c as u8) + 32;
        b as char
    } else {
        c
    }
}

pub fn ascii_upper_exec(s: &[char]) -> (r: Vec<char>)
    ensures
        r@ == ascii_upper(s@),
{
    let mut r: Vec<char> = Vec::new();
    let mut i: usize = 0;
    while i < s.len()
        invariant
            i <= s.len(),
            r@ == ascii_upper(s@.take(i as int)),
        decreases s.len() - i,
    {
        r.push(to_ascii_upper_char(s[i]));
        i += 1;
        assert(ascii_upper(s@.take(i as int)) =~= ascii_upper(s@.take(i - 1)).push(
            ascii_upper_char(s@[i - 1]),
        ));
    }
    assert(s@.take(s.len() as int) =~= s@);
    r
}

pub fn ascii_lower_exec(s: &[char]) -> (r: Vec<char>)
    ensures
        r@ == ascii_lower(s@),
{
    let mut r: Vec<char> = Vec::new();
    let mut i: usize = 0;
    while i < s.len()
        invariant
            i <= s.len(),
            r@ == ascii_lower(s@.take(i as int)),
        decreases s.len() - i,
    {
        r.push(to_ascii_lower_char(s[i]));
        i += 1;
        assert(ascii_lower(s@.take(i as int)) =~= ascii_lower(s@.take(i - 1)).push(
            ascii_lower_char(s@[i - 1]),
        ));
    }
    assert(s@.take(s.len() as int) =~= s@);
    r
}

// ── conversions ─────────────────────────────────────────────────────

/// The characters of `s`, in order.
pub fn to_chars(s: &str) -> (v: Vec<char>)
    ensures
        v@ == s@,
{
    let mut v: Vec<char> = Vec::new();
    for c in it: s.chars()
        invariant
            v@ == it.seq().take(it.index() as int),
    {
        v.push(c);
    }
    v
}

pub fn from_chars(v: &[char]) -> (s: String)
    ensures
        s@ == v@,
{
    let mut s = String::new();
    let mut i: usize = 0;
    while i < v.len()
        invariant
            i <= v.len(),
            s@ == v@.take(i as int),
        decreases v.len() - i,
    {
        s.push(v[i]);
        i += 1;
        assert(v@.take(i as int) == v@.take(i - 1).push(v@[i - 1]));
    }
    assert(v@.take(v.len() as int) == v@);
    s
}

/// `s.to_string()`.
pub fn str_to_string(s: &str) -> (r: String)
    ensures
        r@ == s@,
{
    s.to_owned()
}

/// The chars `s[lo..hi]` as a fresh vector.
pub fn sub_chars(s: &[char], lo: usize, hi: usize) -> (r: Vec<char>)
    requires
        lo <= hi <= s@.len(),
    ensures
        r@ == s@.subrange(lo as int, hi as int),
{
    let mut r: Vec<char> = Vec::new();
    let mut i = lo;
    while i < hi
        invariant
            lo <= i <= hi,
            hi <= s@.len(),
            r@ == s@.subrange(lo as int, i as int),
        decreases hi - i,
    {
        r.push(s[i]);
        i += 1;
        assert(r@ =~= s@.subrange(lo as int, i as int));
    }
    r
}

pub fn concat_chars(a: &[char], b: &[char]) -> (r: Vec<char>)
    ensures
        r@ == a@ + b@,
{
    let mut r: Vec<char> = Vec::new();
    push_all(&mut r, a);
    push_all(&mut r, b);
    r
}

pub fn push_all(dst: &mut Vec<char>, src: &[char])
    ensures
        final(dst)@ == old(dst)@ + src@,
{
    let ghost start = dst@;
    let mut i: usize = 0;
    while i < src.len()
        invariant
            i <= src.len(),
            dst@ == start + src@.take(i as int),
        decreases src.len() - i,
    {
        dst.push(src[i]);
        i += 1;
        assert(src@.take(i as int) == src@.take(i - 1).push(src@[i - 1]));
        assert(dst@ =~= start + src@.take(i as int));
    }
    assert(src@.take(src.len() as int) == src@);
}

pub fn push_str_chars(dst: &mut Vec<char>, src: &str)
    ensures
        final(dst)@ == old(dst)@ + src@,
{
    let v = to_chars(src);
    push_all(dst, v.as_slice());
}

/// The character sequences held by a vector of char vectors.
pub open spec fn views(v: Seq<Vec<char>>) -> Seq<Seq<char>> {
    Seq::new(v.len(), |i: int| v[i]@)
}

pub open spec fn opt_view(o: Option<Vec<char>>) -> Option<Seq<char>> {
    match o {
        Some(v) => Some(v@),
        None => None,
    }
}

pub fn chars_eq(a: &[char], b: &[char]) -> (r: bool)
    ensures
        r == (a@ == b@),
{
    if a.len() != b.len() {
        return false;
    }
    let mut i: usize = 0;
    while i < a.len()
        invariant
            i <= a.len(),
            a.len() == b.len(),
            forall|k: int| 0 <= k < i ==> a@[k] == b@[k],
        decreases a.len() - i,
    {
        if a[i] != b[i] {
            return false;
        }
        i += 1;
    }
    assert(a@ =~= b@);
    true
}

pub fn str_eq_chars(a: &str, b: &[char]) -> (r: bool)
    ensures
        r == (a@ == b@),
{
    let av = to_chars(a);
    chars_eq(av.as_slice(), b)
}

/// Every occurrence of char `from` replaced by char `to`.
pub open spec fn replace_char(s: Seq<char>, from: char, to: char) -> Seq<char> {
    s.map_values(|c: char| if c == from { to } else { c })
}

pub fn replace_char_exec(s: &[char], from: char, to: char) -> (r: Vec<char>)
    ensures
        r@ == replace_char(s@, from, to),
{
    let mut r: Vec<char> = Vec::new();
    let mut i: usize = 0;
    while i < s.len()
        invariant
            i <= s.len(),
            r@ == replace_char(s@.take(i as int), from, to),
        decreases s.len() - i,
    {
        let c = s[i];
        r.push(if c == from { to } else { c });
        i += 1;
        assert(replace_char(s@.take(i as int), from, to) =~= replace_char(s@.take(i - 1), from, to).push(
            if c == from { to } else { c },
        ));
    }
    assert(s@.take(s.len() as int) =~= s@);
    r
}

/// Every occurrence of char `from` replaced by the text `to`
/// (`str::replace` with a char pattern).
pub open spec fn replace_char_with(s: Seq<char>, from: char, to: Seq<char>) -> Seq<char>
    decreases s.len(),
{
    if s.len() == 0 {
        Seq::empty()
    } else {
        replace_char_with(s.drop_last(), from, to) + if s.last() == from {
            to
        } else {
            seq![s.last()]
        }
    }
}

pub fn replace_char_with_exec(s: &[char], from: char, to: &[char]) -> (r: Vec<char>)
    ensures
        r@ == replace_char_with(s@, from, to@),
{
    let mut r: Vec<char> = Vec::new();
    let mut i: usize = 0;
    assert(s@.take(0) =~= Seq::<char>::empty());
    while i < s.len()
        invariant
            i <= s.len(),
            r@ == replace_char_with(s@.take(i as int), from, to@),
        decreases s.len() - i,
    {
        let c = s[i];
        assert(s@.take(i + 1).drop_last() =~= s@.take(i as int));
        if c == from {
            push_all(&mut r, to);
        } else {
            r.push(c);
            assert(r@ =~= replace_char_with(s@.take(i as int), from, to@) + seq![c]);
        }
        i += 1;
    }
    assert(s@.take(s.len() as int) =~= s@);
    r
}

/// Every non-overlapping occurrence of `p`, leftmost first, removed
/// (`str::replace(p, "")`).
pub open spec fn remove_all(s: Seq<char>, p: Seq<char>) -> Seq<char>
    decreases s.len(),
{
    if s.len() == 0 {
        s
    } else if p.len() > 0 && starts_with(s, p) {
        remove_all(s.skip(p.len() as int), p)
    } else {
        seq![s[0]] + remove_all(s.drop_first(), p)
    }
}

pub fn remove_all_exec(s: &[char], p: &[char]) -> (r: Vec<char>)
    ensures
        r@ == remove_all(s@, p@),
{
    let mut r: Vec<char> = Vec::new();
    let mut i: usize = 0;
    let slen = s.len();
    let plen = p.len();
    assert(s@.skip(0) =~= s@);
    while i < slen
        invariant
            i <= slen,
            slen == s@.len(),
            plen == p@.len(),
            r@ + remove_all(s@.skip(i as int), p@) == remove_all(s@, p@),
        decreases slen - i,
    {
        let ghost rest = s@.skip(i as int);
        if plen > 0 && occurs_at_exec(s, p, i) {
            assert(starts_with(rest, p@)) by {
                assert(rest.take(p@.len() as int) =~= s@.subrange(i as int, i + p@.len()));
            }
            assert(rest.skip(p@.len() as int) =~= s@.skip(i + p@.len()));
            i += plen;
        } else {
            assert(!(p@.len() > 0 && starts_with(rest, p@))) by {
                if p@.len() > 0 && starts_with(rest, p@) {
                    assert(rest.take(p@.len() as int) =~= s@.subrange(i as int, i + p@.len()));
                }
            }
            assert(rest.drop_first() =~= s@.skip(i + 1));
            assert(rest[0] == s@[i as int]);
            r.push(s[i]);
            assert(r@ + remove_all(s@.skip(i + 1), p@) =~= (r@.drop_last() + (seq![rest[0]] + remove_all(rest.drop_first(), p@))));
            i += 1;
        }
    }
    assert(s@.skip(slen as int) =~= Seq::<char>::empty());
    assert(r@ + Seq::<char>::empty() =~= r@);
    r
}

/// `s` is one of the strings of `v`.
pub fn strings_contain(v: &Vec<String>, s: &str) -> (b: bool)
    ensures
        b == strings(v@).contains(s@),
{
    let sc = to_chars(s);
    let mut i: usize = 0;
    while i < v.len()
        invariant
            i <= v.len(),
            sc@ == s@,
            forall|k: int| 0 <= k < i ==> strings(v@)[k] != s@,
        decreases v.len() - i,
    {
        if str_eq_chars(v[i].as_str(), sc.as_slice()) {
            assert(strings(v@)[i as int] == s@);
            return true;
        }
        i += 1;
    }
    false
}

/// Append `s` to a list of strings.
pub fn push_string(out: &mut Vec<String>, s: String)
    ensures
        strings(final(out)@) == strings(old(out)@).push(s@),
{
    out.push(s);
    assert(strings(out@) =~= strings(old(out)@).push(s@));
}

// ── prefixes, suffixes, search ──────────────────────────────────────

pub open spec fn starts_with(s: Seq<char>, p: Seq<char>) -> bool {
    p.len() <= s.len() && s.take(p.len() as int) == p
}

pub open spec fn ends_with(s: Seq<char>, p: Seq<char>) -> bool {
    p.len() <= s.len() && s.skip(s.len() - p.len()) == p
}

pub proof fn lemma_starts_with_char(s: Seq<char>, c: char)
    ensures
        starts_with(s, seq![c]) <==> (s.len() > 0 && s[0] == c),
{
    if s.len() > 0 {
        assert(s.take(1) =~= seq![s[0]]);
        if starts_with(s, seq![c]) {
            assert(s.take(1)[0] == c);
        }
    }
}

/// `p` occurs in `s` starting at index `i`.
pub open spec fn occurs_at(s: Seq<char>, p: Seq<char>, i: int) -> bool {
    0 <= i && i + p.len() <= s.len() && s.subrange(i, i + p.len()) == p
}

/// First occurrence of `p` in `s` at or after `from` (`str::find`).
pub open spec fn find_from(s: Seq<char>, p: Seq<char>, from: int) -> Option<int>
    decreases s.len() - from,
{
    if from < 0 || from + p.len() > s.len() {
        None
    } else if p.len() == 0 || occurs_at(s, p, from) {
        Some(from)
    } else {
        find_from(s, p, from + 1)
    }
}

pub open spec fn find(s: Seq<char>, p: Seq<char>) -> Option<int> {
    find_from(s, p, 0)
}

pub open spec fn contains(s: Seq<char>, p: Seq<char>) -> bool {
    find(s, p) is Some
}

pub proof fn lemma_find_from_bounds(s: Seq<char>, p: Seq<char>, from: int)
    requires
        0 <= from,
    ensures
        find_from(s, p, from) matches Some(i) ==> from <= i && occurs_at(s, p, i) && (forall|
            k: int,
        | from <= k < i ==> !occurs_at(s, p, k)),
        find_from(s, p, from) is None ==> (forall|k: int| from <= k ==> !occurs_at(s, p, k)),
    decreases s.len() - from,
{
    if from + p.len() > s.len() {
    } else if p.len() == 0 {
        assert(s.subrange(from, from) =~= p);
    } else if occurs_at(s, p, from) {
    } else {
        lemma_find_from_bounds(s, p, from + 1);
    }
}

pub fn occurs_at_exec(s: &[char], p: &[char], i: usize) -> (b: bool)
    ensures
        b == occurs_at(s@, p@, i as int),
{
    if i > s.len() || p.len() > s.len() - i {
        return false;
    }
    let mut k: usize = 0;
    while k < p.len()
        invariant
            k <= p.len(),
            i + p.len() <= s.len(),
            forall|j: int| 0 <= j < k ==> s@[i + j] == p@[j],
        decreases p.len() - k,
    {
        if s[i + k] != p[k] {
            assert(s@.subrange(i as int, i + p.len())[k as int] != p@[k as int]);
            return false;
        }
        k += 1;
    }
    assert(s@.subrange(i as int, i + p.len()) =~= p@);
    true
}

pub fn starts_with_exec(s: &[char], p: &[char]) -> (b: bool)
    ensures
        b == starts_with(s@, p@),
{
    let r = occurs_at_exec(s, p, 0);
    proof {
        if p@.len() <= s@.len() {
            assert(s@.subrange(0, p@.len() as int) == s@.take(p@.len() as int));
        }
    }
    r
}

pub fn ends_with_exec(s: &[char], p: &[char]) -> (b: bool)
    ensures
        b == ends_with(s@, p@),
{
    if p.len() > s.len() {
        return false;
    }
    let r = occurs_at_exec(s, p, s.len() - p.len());
    assert(s@.subrange(s@.len() - p@.len(), s@.len() as int) == s@.skip(s@.len() - p@.len()));
    r
}

pub fn find_from_exec(s: &[char], p: &[char], from: usize) -> (r: Option<usize>)
    ensures
        match r {
            Some(i) => find_from(s@, p@, from as int) == Some(i as int),
            None => find_from(s@, p@, from as int) is None,
        },
{
    if from > s.len() || p.len() > s.len() - from {
        return None;
    }
    let last = s.len() - p.len();
    let mut i = from;
    loop
        invariant
            from <= i <= last,
            last + p@.len() == s@.len(),
            find_from(s@, p@, from as int) == find_from(s@, p@, i as int),
        decreases last - i,
    {
        if p.len() == 0 || occurs_at_exec(s, p, i) {
            return Some(i);
        }
        if i == last {
            assert(find_from(s@, p@, i + 1) is None);
            return None;
        }
        i += 1;
    }
}

pub fn find_exec(s: &[char], p: &[char]) -> (r: Option<usize>)
    ensures
        match r {
            Some(i) => find(s@, p@) == Some(i as int),
            None => find(s@, p@) is None,
        },
{
    find_from_exec(s, p, 0)
}

pub fn contains_exec(s: &[char], p: &[char]) -> (b: bool)
    ensures
        b == contains(s@, p@),
{
    find_exec(s, p).is_some()
}

pub fn contains_str(s: &[char], p: &str) -> (b: bool)
    ensures
        b == contains(s@, p@),
{
    let pv = to_chars(p);
    contains_exec(s, pv.as_slice())
}

pub fn starts_with_str(s: &[char], p: &str) -> (b: bool)
    ensures
        b == starts_with(s@, p@),
{
    let pv = to_chars(p);
    starts_with_exec(s, pv.as_slice())
}

pub fn ends_with_str(s: &[char], p: &str) -> (b: bool)
    ensures
        b == ends_with(s@, p@),
{
    let pv = to_chars(p);
    ends_with_exec(s, pv.as_slice())
}

/// First index of char `c` at or after `from`.
pub open spec fn index_of_char_from(s: Seq<char>, c: char, from: int) -> Option<int>
    decreases s.len() - from,
{
    if from < 0 || from >= s.len() {
        None
    } else if s[from] == c {
        Some(from)
    } else {
        index_of_char_from(s, c, from + 1)
    }
}

pub proof fn lemma_index_of_char_from(s: Seq<char>, c: char, from: int)
    requires
        0 <= from,
    ensures
        index_of_char_from(s, c, from) matches Some(i) ==> from <= i < s.len() && s[i] == c && (
        forall|k: int| from <= k < i ==> s[k] != c),
        index_of_char_from(s, c, from) is None ==> (forall|k: int| from <= k < s.len() ==> s[k]
            != c),
    decreases s.len() - from,
{
    if from < s.len() && s[from] != c {
        lemma_index_of_char_from(s, c, from + 1);
    }
}

pub fn index_of_char_from_exec(s: &[char], c: char, from: usize) -> (r: Option<usize>)
    ensures
        match r {
            Some(i) => index_of_char_from(s@, c, from as int) == Some(i as int),
            None => index_of_char_from(s@, c, from as int) is None,
        },
{
    let mut i = from;
    while i < s.len()
        invariant
            from <= i,
            index_of_char_from(s@, c, from as int) == index_of_char_from(s@, c, i as int),
        decreases s.len() - i,
    {
        if s[i] == c {
            return Some(i);
        }
        i += 1;
    }
    None
}

/// Last index of a char satisfying membership in `set` (`str::rfind`
/// with a char-slice pattern).
pub open spec fn rfind_any(s: Seq<char>, set: Seq<char>) -> Option<int>
    decreases s.len(),
{
    if s.len() == 0 {
        None
    } else if set.contains(s.last()) {
        Some(s.len() - 1)
    } else {
        rfind_any(s.drop_last(), set)
    }
}

pub proof fn lemma_rfind_any(s: Seq<char>, set: Seq<char>)
    ensures
        rfind_any(s, set) matches Some(i) ==> 0 <= i < s.len() && set.contains(s[i]) && (forall|
            k: int,
        | i < k < s.len() ==> !set.contains(s[k])),
        rfind_any(s, set) is None ==> (forall|k: int| 0 <= k < s.len() ==> !set.contains(s[k])),
    decreases s.len(),
{
    if s.len() > 0 && !set.contains(s.last()) {
        lemma_rfind_any(s.drop_last(), set);
        assert forall|k: int| 0 <= k < s.len() - 1 implies s.drop_last()[k] == s[k] by {}
    }
}

pub fn rfind_any_exec(s: &[char], set: &[char]) -> (r: Option<usize>)
    ensures
        match r {
            Some(i) => rfind_any(s@, set@) == Some(i as int),
            None => rfind_any(s@, set@) is None,
        },
{
    let mut n = s.len();
    assert(s@.take(n as int) =~= s@);
    while n > 0
        invariant
            n <= s.len(),
            rfind_any(s@, set@) == rfind_any(s@.take(n as int), set@),
        decreases n,
    {
        assert(s@.take(n as int).last() == s@[n - 1]);
        assert(s@.take(n as int).drop_last() =~= s@.take(n - 1));
        if slice_contains_char(set, s[n - 1]) {
            return Some(n - 1);
        }
        n -= 1;
    }
    None
}

pub fn slice_contains_char(set: &[char], c: char) -> (b: bool)
    ensures
        b == set@.contains(c),
{
    let mut i: usize = 0;
    while i < set.len()
        invariant
            i <= set.len(),
            forall|k: int| 0 <= k < i ==> set@[k] != c,
        decreases set.len() - i,
    {
        if set[i] == c {
            assert(set@[i as int] == c);
            return true;
        }
        i += 1;
    }
    false
}

pub open spec fn strip_prefix(s: Seq<char>, p: Seq<char>) -> Option<Seq<char>> {
    if starts_with(s, p) {
        Some(s.skip(p.len() as int))
    } else {
        None
    }
}

pub open spec fn strip_suffix(s: Seq<char>, p: Seq<char>) -> Option<Seq<char>> {
    if ends_with(s, p) {
        Some(s.take(s.len() - p.len()))
    } else {
        None
    }
}

pub fn strip_prefix_exec(s: &[char], p: &[char]) -> (r: Option<Vec<char>>)
    ensures
        opt_view(r) == strip_prefix(s@, p@),
{
    if starts_with_exec(s, p) {
        let v = sub_chars(s, p.len(), s.len());
        assert(v@ == s@.skip(p@.len() as int));
        Some(v)
    } else {
        None
    }
}

pub fn strip_prefix_str(s: &[char], p: &str) -> (r: Option<Vec<char>>)
    ensures
        opt_view(r) == strip_prefix(s@, p@),
{
    let pv = to_chars(p);
    strip_prefix_exec(s, pv.as_slice())
}

pub fn strip_suffix_exec(s: &[char], p: &[char]) -> (r: Option<Vec<char>>)
    ensures
        opt_view(r) == strip_suffix(s@, p@),
{
    if ends_with_exec(s, p) {
        let v = sub_chars(s, 0, s.len() - p.len());
        assert(v@ == s@.take(s@.len() - p@.len()));
        Some(v)
    } else {
        None
    }
}

pub fn strip_suffix_str(s: &[char], p: &str) -> (r: Option<Vec<char>>)
    ensures
        opt_view(r) == strip_suffix(s@, p@),
{
    let pv = to_chars(p);
    strip_suffix_exec(s, pv.as_slice())
}

/// `str::trim_start_matches` with a string pattern: strips every
/// leading repetition of `p`.
pub open spec fn trim_start_matches(s: Seq<char>, p: Seq<char>) -> Seq<char>
    decreases s.len(),
{
    if p.len() > 0 && starts_with(s, p) {
        trim_start_matches(s.skip(p.len() as int), p)
    } else {
        s
    }
}

/// `str::trim_end_matches` with a string pattern.
pub open spec fn trim_end_matches(s: Seq<char>, p: Seq<char>) -> Seq<char>
    decreases s.len(),
{
    if p.len() > 0 && ends_with(s, p) {
        trim_end_matches(s.take(s.len() - p.len()), p)
    } else {
        s
    }
}

pub fn trim_start_matches_exec(s: &[char], p: &[char]) -> (r: Vec<char>)
    ensures
        r@ == trim_start_matches(s@, p@),
{
    let mut i: usize = 0;
    if p.len() == 0 {
        return sub_chars(s, 0, s.len());
    }
    assert(s@.skip(0) =~= s@);
    while i <= s.len() && starts_with_exec(&s[i..s.len()], p)
        invariant
            i <= s.len(),
            p@.len() > 0,
            trim_start_matches(s@, p@) == trim_start_matches(s@.skip(i as int), p@),
        decreases s.len() - i,
    {
        assert(s@.subrange(i as int, s@.len() as int) == s@.skip(i as int));
        assert(s@.skip(i as int).skip(p@.len() as int) =~= s@.skip(i + p@.len()));
        i += p.len();
    }
    assert(s@.subrange(i as int, s@.len() as int) == s@.skip(i as int));
    sub_chars(s, i, s.len())
}

pub fn trim_start_matches_str(s: &[char], p: &str) -> (r: Vec<char>)
    ensures
        r@ == trim_start_matches(s@, p@),
{
    let pv = to_chars(p);
    trim_start_matches_exec(s, pv.as_slice())
}

pub fn trim_end_matches_exec(s: &[char], p: &[char]) -> (r: Vec<char>)
    ensures
        r@ == trim_end_matches(s@, p@),
{
    let mut n: usize = s.len();
    if p.len() == 0 {
        return sub_chars(s, 0, s.len());
    }
    assert(s@.take(n as int) =~= s@);
    while ends_with_exec(&s[0..n], p)
        invariant
            n <= s.len(),
            p@.len() > 0,
            trim_end_matches(s@, p@) == trim_end_matches(s@.take(n as int), p@),
        decreases n,
    {
        assert(s@.subrange(0, n as int) == s@.take(n as int));
        assert(s@.take(n as int).take(n - p@.len()) =~= s@.take(n - p@.len()));
        n -= p.len();
    }
    assert(s@.subrange(0, n as int) == s@.take(n as int));
    sub_chars(s, 0, n)
}

pub fn trim_end_matches_str(s: &[char], p: &str) -> (r: Vec<char>)
    ensures
        r@ == trim_end_matches(s@, p@),
{
    let pv = to_chars(p);
    trim_end_matches_exec(s, pv.as_slice())
}

/// `str::split_once` with a string pattern: text before the first
/// occurrence, text after it.
pub open spec fn split_once(s: Seq<char>, p: Seq<char>) -> Option<(Seq<char>, Seq<char>)> {
    match find(s, p) {
        Some(i) => Some((s.take(i), s.skip(i + p.len()))),
        None => None,
    }
}

/// The text before the first occurrence of `p` (`split_once(p)` head),
/// or all of `s`.
pub open spec fn before_first(s: Seq<char>, p: Seq<char>) -> Seq<char> {
    match split_once(s, p) {
        Some((h, _)) => h,
        None => s,
    }
}

pub fn split_once_exec(s: &[char], p: &[char]) -> (r: Option<(Vec<char>, Vec<char>)>)
    ensures
        match r {
            Some((h, t)) => split_once(s@, p@) == Some((h@, t@)),
            None => split_once(s@, p@) is None,
        },
{
    match find_exec(s, p) {
        Some(i) => {
            proof {
                lemma_find_from_bounds(s@, p@, 0);
                assert(find_from(s@, p@, 0) == Some(i as int));
                assert(occurs_at(s@, p@, i as int));
            }
            let plen = p.len();
            let slen = s.len();
            assert(i + plen <= slen);
            let h = sub_chars(s, 0, i);
            let t = sub_chars(s, i + plen, s.len());
            assert(h@ =~= s@.take(i as int));
            assert(t@ =~= s@.skip(i + p@.len()));
            Some((h, t))
        },
        None => None,
    }
}

pub fn before_first_str(s: &[char], p: &str) -> (r: Vec<char>)
    ensures
        r@ == before_first(s@, p@),
{
    let pv = to_chars(p);
    match split_once_exec(s, pv.as_slice()) {
        Some((h, _)) => h,
        None => sub_chars(s, 0, s.len()),
    }
}

// ── trimming by character class ─────────────────────────────────────

/// Membership in a character class: whitespace (when `ws`) or one of
/// the chars in `set`.
pub open spec fn in_class(ws: bool, set: Seq<char>, c: char) -> bool {
    (ws && is_ws(c)) || set.contains(c)
}

pub open spec fn trim_start_class(s: Seq<char>, ws: bool, set: Seq<char>) -> Seq<char>
    decreases s.len(),
{
    if s.len() > 0 && in_class(ws, set, s[0]) {
        trim_start_class(s.drop_first(), ws, set)
    } else {
        s
    }
}

pub open spec fn trim_end_class(s: Seq<char>, ws: bool, set: Seq<char>) -> Seq<char>
    decreases s.len(),
{
    if s.len() > 0 && in_class(ws, set, s.last()) {
        trim_end_class(s.drop_last(), ws, set)
    } else {
        s
    }
}

/// `str::trim_matches` with a char predicate.
pub open spec fn trim_class(s: Seq<char>, ws: bool, set: Seq<char>) -> Seq<char> {
    trim_end_class(trim_start_class(s, ws, set), ws, set)
}

/// `str::trim_start`.
pub open spec fn trim_start(s: Seq<char>) -> Seq<char> {
    trim_start_class(s, true, Seq::empty())
}

/// `str::trim_end`.
pub open spec fn trim_end(s: Seq<char>) -> Seq<char> {
    trim_end_class(s, true, Seq::empty())
}

/// `str::trim`.
pub open spec fn trim(s: Seq<char>) -> Seq<char> {
    trim_class(s, true, Seq::empty())
}

pub fn in_class_exec(ws: bool, set: &[char], c: char) -> (b: bool)
    ensures
        b == in_class(ws, set@, c),
{
    (ws && is_whitespace(c)) || slice_contains_char(set, c)
}

pub fn trim_start_class_exec(s: &[char], ws: bool, set: &[char]) -> (r: Vec<char>)
    ensures
        r@ == trim_start_class(s@, ws, set@),
{
    let mut i: usize = 0;
    assert(s@.skip(0) =~= s@);
    while i < s.len() && in_class_exec(ws, set, s[i])
        invariant
            i <= s.len(),
            trim_start_class(s@, ws, set@) == trim_start_class(s@.skip(i as int), ws, set@),
        decreases s.len() - i,
    {
        assert(s@.skip(i as int)[0] == s@[i as int]);
        assert(s@.skip(i as int).drop_first() =~= s@.skip(i + 1));
        i += 1;
    }
    sub_chars(s, i, s.len())
}

pub fn trim_end_class_exec(s: &[char], ws: bool, set: &[char]) -> (r: Vec<char>)
    ensures
        r@ == trim_end_class(s@, ws, set@),
{
    let mut n: usize = s.len();
    assert(s@.take(n as int) =~= s@);
    while n > 0 && in_class_exec(ws, set, s[n - 1])
        invariant
            n <= s.len(),
            trim_end_class(s@, ws, set@) == trim_end_class(s@.take(n as int), ws, set@),
        decreases n,
    {
        assert(s@.take(n as int).last() == s@[n - 1]);
        assert(s@.take(n as int).drop_last() =~= s@.take(n - 1));
        n -= 1;
    }
    sub_chars(s, 0, n)
}

pub fn trim_class_exec(s: &[char], ws: bool, set: &[char]) -> (r: Vec<char>)
    ensures
        r@ == trim_class(s@, ws, set@),
{
    let a = trim_start_class_exec(s, ws, set);
    trim_end_class_exec(a.as_slice(), ws, set)
}

pub fn trim_exec(s: &[char]) -> (r: Vec<char>)
    ensures
        r@ == trim(s@),
{
    let empty: Vec<char> = Vec::new();
    proof {
        assert(empty@ =~= Seq::<char>::empty());
    }
    trim_class_exec(s, true, empty.as_slice())
}

pub fn trim_start_exec(s: &[char]) -> (r: Vec<char>)
    ensures
        r@ == trim_start(s@),
{
    let empty: Vec<char> = Vec::new();
    proof {
        assert(empty@ =~= Seq::<char>::empty());
    }
    trim_start_class_exec(s, true, empty.as_slice())
}

pub fn trim_end_exec(s: &[char]) -> (r: Vec<char>)
    ensures
        r@ == trim_end(s@),
{
    let empty: Vec<char> = Vec::new();
    proof {
        assert(empty@ =~= Seq::<char>::empty());
    }
    trim_end_class_exec(s, true, empty.as_slice())
}

/// The two quote characters `"` and `'`.
pub open spec fn quotes() -> Seq<char> {
    seq!['"', '\'']
}

pub fn quotes_exec() -> (r: Vec<char>)
    ensures
        r@ == quotes(),
{
    let mut r: Vec<char> = Vec::new();
    r.push('"');
    r.push('\'');
    assert(r@ =~= quotes());
    r
}

/// `s.trim_matches(|c| c == '"' || c == '\'')`.
pub fn trim_quotes_exec(s: &[char]) -> (r: Vec<char>)
    ensures
        r@ == trim_class(s@, false, quotes()),
{
    let q = quotes_exec();
    trim_class_exec(s, false, q.as_slice())
}

/// The texts of a vector of strings.
pub open spec fn strings(v: Seq<String>) -> Seq<Seq<char>> {
    v.map_values(|s: String| s@)
}

pub fn clone_strings(v: &Vec<String>) -> (r: Vec<String>)
    ensures
        strings(r@) == strings(v@),
{
    let mut r: Vec<String> = Vec::new();
    let mut i: usize = 0;
    while i < v.len()
        invariant
            i <= v.len(),
            strings(r@) == strings(v@.take(i as int)),
        decreases v.len() - i,
    {
        let s = v[i].as_str().to_owned();
        assert(s@ == v@[i as int]@);
        let ghost before = r@;
        r.push(s);
        assert(r@ == before.push(s));
        assert(strings(r@) =~= strings(v@.take(i + 1))) by {
            assert(strings(r@) =~= strings(before).push(s@));
            assert(v@.take(i + 1) =~= v@.take(i as int).push(v@[i as int]));
            assert(strings(v@.take(i + 1)) =~= strings(v@.take(i as int)).push(v@[i as int]@));
        }
        i += 1;
    }
    assert(v@.take(v.len() as int) =~= v@);
    r
}

// ── ordering ────────────────────────────────────────────────────────

/// `String`'s `Ord`: lexicographic by code point (the same order as the
/// UTF-8 bytes).
pub open spec fn seq_lt(a: Seq<char>, b: Seq<char>) -> bool
    decreases a.len(),
{
    if a.len() == 0 {
        b.len() > 0
    } else if b.len() == 0 {
        false
    } else if a[0] != b[0] {
        a[0] < b[0]
    } else {
        seq_lt(a.drop_first(), b.drop_first())
    }
}

pub proof fn lemma_seq_lt_irreflexive(a: Seq<char>)
    ensures
        !seq_lt(a, a),
    decreases a.len(),
{
    if a.len() > 0 {
        lemma_seq_lt_irreflexive(a.drop_first());
    }
}

pub proof fn lemma_seq_lt_total(a: Seq<char>, b: Seq<char>)
    ensures
        seq_lt(a, b) || seq_lt(b, a) || a == b,
    decreases a.len(),
{
    if a.len() > 0 && b.len() > 0 && a[0] == b[0] {
        lemma_seq_lt_total(a.drop_first(), b.drop_first());
        if a.drop_first() == b.drop_first() {
            assert(a =~= seq![a[0]] + a.drop_first());
            assert(b =~= seq![b[0]] + b.drop_first());
        }
    } else if a.len() == 0 && b.len() == 0 {
        assert(a =~= b);
    }
}

pub proof fn lemma_seq_lt_asym(a: Seq<char>, b: Seq<char>)
    ensures
        seq_lt(a, b) ==> !seq_lt(b, a),
    decreases a.len(),
{
    if a.len() > 0 && b.len() > 0 && a[0] == b[0] {
        lemma_seq_lt_asym(a.drop_first(), b.drop_first());
    }
}

pub proof fn lemma_seq_lt_transitive(a: Seq<char>, b: Seq<char>, c: Seq<char>)
    requires
        seq_lt(a, b),
        seq_lt(b, c),
    ensures
        seq_lt(a, c),
    decreases a.len(),
{
    if a.len() > 0 && b.len() > 0 && c.len() > 0 && a[0] == b[0] && b[0] == c[0] {
        lemma_seq_lt_transitive(a.drop_first(), b.drop_first(), c.drop_first());
    }
}

pub fn seq_lt_exec(a: &[char], b: &[char]) -> (r: bool)
    ensures
        r == seq_lt(a@, b@),
{
    let mut i: usize = 0;
    assert(a@.skip(0) =~= a@);
    assert(b@.skip(0) =~= b@);
    while i < a.len() && i < b.len()
        invariant
            i <= a@.len(),
            i <= b@.len(),
            seq_lt(a@, b@) == seq_lt(a@.skip(i as int), b@.skip(i as int)),
        decreases a.len() - i,
    {
        assert(a@.skip(i as int)[0] == a@[i as int]);
        assert(b@.skip(i as int)[0] == b@[i as int]);
        if a[i] != b[i] {
            return a[i] < b[i];
        }
        assert(a@.skip(i as int).drop_first() =~= a@.skip(i + 1));
        assert(b@.skip(i as int).drop_first() =~= b@.skip(i + 1));
        i += 1;
    }
    i == a.len() && i < b.len()
}

// ── splitting ───────────────────────────────────────────────────────

/// `str::split` with a char pattern: always at least one piece.
pub open spec fn split_char(s: Seq<char>, c: char) -> Seq<Seq<char>>
    decreases s.len(),
{
    match index_of_char_from(s, c, 0) {
        Some(i) => {
            if 0 <= i < s.len() {
                seq![s.take(i)] + split_char(s.skip(i + 1), c)
            } else {
                seq![s]
            }
        },
        None => seq![s],
    }
}

pub fn split_char_exec(s: &[char], c: char) -> (r: Vec<Vec<char>>)
    ensures
        views(r@) == split_char(s@, c),
{
    let mut out: Vec<Vec<char>> = Vec::new();
    let mut start: usize = 0;
    assert(s@.skip(0) =~= s@);
    assert(views(out@) =~= Seq::<Seq<char>>::empty());
    loop
        invariant
            start <= s.len(),
            views(out@) + split_char(s@.skip(start as int), c) == split_char(s@, c),
        decreases s.len() - start,
    {
        let ghost rest = s@.skip(start as int);
        let nl = index_of_char_from_exec(s, c, start);
        proof {
            lemma_index_of_char_from(s@, c, start as int);
            lemma_index_of_char_from(rest, c, 0);
        }
        match nl {
            Some(i) => {
                proof {
                    assert(index_of_char_from(rest, c, 0) == Some(i - start)) by {
                        let j = index_of_char_from(rest, c, 0);
                        assert(rest[i - start] == c);
                        if j is Some {
                            let jj = j->0;
                            assert(s@[start + jj] == c);
                        }
                    }
                    assert(rest.take(i - start) =~= s@.subrange(start as int, i as int));
                    assert(rest.skip(i - start + 1) =~= s@.skip(i + 1));
                }
                let piece = sub_chars(s, start, i);
                let ghost before = views(out@);
                let ghost x = s@.subrange(start as int, i as int);
                let ghost tail = split_char(s@.skip(i + 1), c);
                out.push(piece);
                assert(views(out@) =~= before.push(x));
                assert(before.push(x) + tail =~= before + (seq![x] + tail));
                start = i + 1;
            },
            None => {
                proof {
                    assert(index_of_char_from(rest, c, 0) is None) by {
                        let j = index_of_char_from(rest, c, 0);
                        if j is Some {
                            let jj = j->0;
                            assert(s@[start + jj] == c);
                        }
                    }
                }
                let piece = sub_chars(s, start, s.len());
                let ghost before = views(out@);
                out.push(piece);
                assert(views(out@) =~= before.push(rest));
                assert(before.push(rest) =~= before + seq![rest]);
                return out;
            },
        }
    }
}

// ── lines ───────────────────────────────────────────────────────────

pub open spec fn strip_cr(s: Seq<char>) -> Seq<char> {
    if s.len() > 0 && s.last() == '\r' {
        s.drop_last()
    } else {
        s
    }
}

/// `str::lines`: split at `\n`, drop one `\r` before each `\n`, and no
/// empty final line after a trailing newline.
pub open spec fn lines(s: Seq<char>) -> Seq<Seq<char>>
    decreases s.len(),
{
    if s.len() == 0 {
        Seq::empty()
    } else {
        match index_of_char_from(s, '\n', 0) {
            Some(i) => {
                if 0 <= i < s.len() {
                    seq![strip_cr(s.take(i))] + lines(s.skip(i + 1))
                } else {
                    seq![s]
                }
            },
            None => seq![s],
        }
    }
}

pub fn strip_cr_exec(s: Vec<char>) -> (r: Vec<char>)
    ensures
        r@ == strip_cr(s@),
{
    let mut s = s;
    if s.len() > 0 && s[s.len() - 1] == '\r' {
        s.pop();
        s
    } else {
        s
    }
}

pub fn lines_exec(s: &[char]) -> (r: Vec<Vec<char>>)
    ensures
        views(r@) == lines(s@),
{
    let mut out: Vec<Vec<char>> = Vec::new();
    let mut start: usize = 0;
    assert(s@.skip(0) =~= s@);
    assert(views(out@) =~= Seq::<Seq<char>>::empty());
    while start < s.len()
        invariant
            start <= s.len(),
            views(out@) + lines(s@.skip(start as int)) == lines(s@),
        decreases s.len() - start,
    {
        let ghost rest = s@.skip(start as int);
        let nl = index_of_char_from_exec(s, '\n', start);
        proof {
            lemma_index_of_char_from(s@, '\n', start as int);
            lemma_index_of_char_from(rest, '\n', 0);
        }
        match nl {
            Some(i) => {
                proof {
                    assert(index_of_char_from(rest, '\n', 0) == Some(i - start)) by {
                        let j = index_of_char_from(rest, '\n', 0);
                        assert(rest[i - start] == '\n');
                        if j is None {
                        } else {
                            let jj = j->0;
                            assert(s@[start + jj] == '\n');
                        }
                    }
                    assert(rest.take(i - start) =~= s@.subrange(start as int, i as int));
                    assert(rest.skip(i - start + 1) =~= s@.skip(i + 1));
                }
                let line = sub_chars(s, start, i);
                let line = strip_cr_exec(line);
                let ghost before = views(out@);
                let ghost x = strip_cr(s@.subrange(start as int, i as int));
                let ghost tail = lines(s@.skip(i + 1));
                proof {
                    assert(lines(rest) == seq![x] + tail);
                }
                out.push(line);
                assert(views(out@) =~= before.push(x));
                assert(before.push(x) + tail =~= before + (seq![x] + tail));
                start = i + 1;
            },
            None => {
                proof {
                    assert(index_of_char_from(rest, '\n', 0) is None) by {
                        let j = index_of_char_from(rest, '\n', 0);
                        if j is Some {
                            let jj = j->0;
                            assert(s@[start + jj] == '\n');
                        }
                    }
                }
                let line = sub_chars(s, start, s.len());
                let ghost before = views(out@);
                out.push(line);
                assert(views(out@) =~= before.push(rest));
                start = s.len();
                assert(s@.skip(start as int) =~= Seq::<char>::empty());
            },
        }
    }
    assert(s@.skip(start as int) =~= Seq::<char>::empty());
    assert(views(out@) + Seq::<Seq<char>>::empty() =~= views(out@));
    out
}


// ── tokens ──────────────────────────────────────────────────────────

/// Length of the leading run of non-whitespace characters.
pub open spec fn word_len(s: Seq<char>) -> int
    decreases s.len(),
{
    if s.len() == 0 || is_ws(s[0]) {
        0
    } else {
        1 + word_len(s.drop_first())
    }
}

/// The first whitespace-separated token (`split_whitespace().next()`,
/// empty when there is none).
pub open spec fn first_token(s: Seq<char>) -> Seq<char> {
    let t = trim_start(s);
    t.take(word_len(t))
}

proof fn lemma_word_len(s: Seq<char>)
    ensures
        0 <= word_len(s) <= s.len(),
    decreases s.len(),
{
    if s.len() > 0 && !is_ws(s[0]) {
        lemma_word_len(s.drop_first());
    }
}

pub fn first_token_exec(s: &[char]) -> (r: Vec<char>)
    ensures
        r@ == first_token(s@),
{
    let t = trim_start_exec(s);
    let tlen = t.len();
    let mut i: usize = 0;
    proof {
        lemma_word_len(t@);
        assert(t@.skip(0) =~= t@);
    }
    while i < tlen && !is_whitespace(t[i])
        invariant
            i <= tlen,
            tlen == t@.len(),
            word_len(t@) == i + word_len(t@.skip(i as int)),
        decreases tlen - i,
    {
        assert(t@.skip(i as int).drop_first() =~= t@.skip(i + 1));
        i += 1;
    }
    assert(word_len(t@.skip(i as int)) == 0) by {
        if i < tlen {
            assert(t@.skip(i as int)[0] == t@[i as int]);
        }
    }
    sub_chars(t.as_slice(), 0, i)
}

/// The text after the last `c` (all of `s` when there is none), as
/// `rsplit(c).next()` yields it.
pub open spec fn after_last(s: Seq<char>, c: char) -> Seq<char> {
    match rfind_any(s, seq![c]) {
        Some(i) => s.skip(i + 1),
        None => s,
    }
}

pub fn after_last_exec(s: &[char], c: char) -> (r: Vec<char>)
    ensures
        r@ == after_last(s@, c),
{
    let mut set: Vec<char> = Vec::new();
    set.push(c);
    assert(set@ =~= seq![c]);
    proof {
        lemma_rfind_any(s@, set@);
    }
    let slen = s.len();
    match rfind_any_exec(s, set.as_slice()) {
        Some(i) => sub_chars(s, i + 1, s.len()),
        None => sub_chars(s, 0, s.len()),
    }
}


/// The words of `s` (its maximal runs of non-whitespace) joined by
/// single spaces: `split_whitespace().collect::<Vec<_>>().join(" ")`.
/// Each word's first character is preceded by a space exactly when an
/// earlier word exists.
pub open spec fn join_words(s: Seq<char>) -> Seq<char>
    decreases s.len(),
{
    if s.len() == 0 {
        Seq::empty()
    } else {
        let p = join_words(s.drop_last());
        let c = s.last();
        if is_ws(c) {
            p
        } else if s.len() >= 2 && !is_ws(s[s.len() - 2]) {
            p.push(c)
        } else if p.len() > 0 {
            p.push(' ').push(c)
        } else {
            p.push(c)
        }
    }
}

/// Words separated by single spaces, with no whitespace in front; one
/// space may end it.
pub open spec fn spaced_words(t: Seq<char>) -> bool {
    &&& forall|i: int| 0 <= i < t.len() && is_ws(#[trigger] t[i]) ==> t[i] == ' '
    &&& t.len() > 0 ==> !is_ws(t[0])
    &&& forall|i: int, j: int|
        #![trigger t[i], t[j]]
        0 <= i && j == i + 1 && j < t.len() && is_ws(t[j]) ==> !is_ws(t[i])
}

/// Words separated by single spaces, with no whitespace at either end:
/// what [`join_words`] produces.
pub open spec fn words_normalized(t: Seq<char>) -> bool {
    spaced_words(t) && (t.len() > 0 ==> !is_ws(t.last()))
}

/// [`join_words`] yields words separated by single spaces.
pub proof fn lemma_join_words_normalized(s: Seq<char>)
    ensures
        words_normalized(join_words(s)),
    decreases s.len(),
{
    if s.len() > 0 {
        lemma_join_words_normalized(s.drop_last());
        let p = join_words(s.drop_last());
        let c = s.last();
        let t = join_words(s);
        assert(is_ws(' '));
        if is_ws(c) {
        } else if s.len() >= 2 && !is_ws(s[s.len() - 2]) {
            assert(t == p.push(c));
            assert forall|i: int| 0 <= i < t.len() && is_ws(#[trigger] t[i]) implies t[i] == ' ' by {
                if i < p.len() {
                    assert(t[i] == p[i]);
                }
            }
            if p.len() > 0 {
                assert(t[0] == p[0]);
            }
            assert forall|i: int, j: int|
                #![trigger t[i], t[j]]
                0 <= i && j == i + 1 && j < t.len() && is_ws(t[j]) implies !is_ws(t[i]) by {
                assert(t[i] == p[i]);
                if j < p.len() {
                    assert(t[j] == p[j]);
                    assert(p[i] == p[i] && p[j] == p[j]);
                }
            }
        } else if p.len() > 0 {
            assert(t == p.push(' ').push(c));
            assert forall|i: int| 0 <= i < t.len() && is_ws(#[trigger] t[i]) implies t[i] == ' ' by {
                if i < p.len() {
                    assert(t[i] == p[i]);
                }
            }
            assert(t[0] == p[0]);
            assert forall|i: int, j: int|
                #![trigger t[i], t[j]]
                0 <= i && j == i + 1 && j < t.len() && is_ws(t[j]) implies !is_ws(t[i]) by {
                if j < p.len() {
                    assert(t[i] == p[i]);
                    assert(t[j] == p[j]);
                    assert(p[i] == p[i] && p[j] == p[j]);
                } else if j == p.len() {
                    assert(t[i] == p[i]);
                    assert(p[p.len() - 1] == p.last());
                }
            }
        } else {
            assert(t == p.push(c));
            assert(t.len() == 1);
        }
    }
}

/// On text of single-spaced words, [`join_words`] only drops a final
/// space.
pub proof fn lemma_join_words_spaced(t: Seq<char>)
    requires
        spaced_words(t),
    ensures
        join_words(t) == if t.len() > 0 && is_ws(t.last()) {
            t.drop_last()
        } else {
            t
        },
    decreases t.len(),
{
    if t.len() > 0 {
        let u = t.drop_last();
        assert forall|i: int| 0 <= i < u.len() && is_ws(#[trigger] u[i]) implies u[i] == ' ' by {
            assert(u[i] == t[i]);
        }
        if u.len() > 0 {
            assert(u[0] == t[0]);
        }
        assert forall|i: int, j: int|
            #![trigger u[i], u[j]]
            0 <= i && j == i + 1 && j < u.len() && is_ws(u[j]) implies !is_ws(u[i]) by {
            assert(u[i] == t[i] && u[j] == t[j]);
        }
        lemma_join_words_spaced(u);
        let c = t.last();
        if is_ws(c) {
            assert(t.len() >= 2);
            assert(t[t.len() - 2] == u.last());
            assert(t[t.len() - 1] == c);
            assert(!is_ws(u.last()));
        } else if t.len() >= 2 && !is_ws(t[t.len() - 2]) {
            assert(t[t.len() - 2] == u.last());
            assert(u.push(c) =~= t);
        } else if t.len() >= 2 {
            assert(t[t.len() - 2] == u.last());
            assert(u.last() == ' ');
            let w = u.drop_last();
            assert(u.len() >= 2);
            assert(w[0] == t[0]);
            assert(w.push(' ').push(c) =~= t);
        } else {
            assert(u.len() == 0);
            assert(join_words(u) =~= Seq::<char>::empty());
            assert(Seq::<char>::empty().push(c) =~= t);
        }
    }
}

/// Joining the words of text whose words are already joined changes
/// nothing.
pub proof fn lemma_join_words_idempotent(s: Seq<char>)
    ensures
        join_words(join_words(s)) == join_words(s),
{
    lemma_join_words_normalized(s);
    lemma_join_words_spaced(join_words(s));
}

pub fn join_words_exec(s: &[char]) -> (r: Vec<char>)
    ensures
        r@ == join_words(s@),
{
    let mut out: Vec<char> = Vec::new();
    let mut i: usize = 0;
    assert(s@.take(0) =~= Seq::<char>::empty());
    while i < s.len()
        invariant
            i <= s@.len(),
            out@ == join_words(s@.take(i as int)),
        decreases s@.len() - i,
    {
        let c = s[i];
        let ghost t = s@.take(i + 1);
        assert(t.drop_last() =~= s@.take(i as int));
        assert(t.last() == c);
        if is_whitespace(c) {
        } else if i >= 1 && !is_whitespace(s[i - 1]) {
            assert(t[t.len() - 2] == s@[i - 1]);
            out.push(c);
        } else {
            if i >= 1 {
                assert(t[t.len() - 2] == s@[i - 1]);
            }
            if out.len() > 0 {
                out.push(' ');
            }
            out.push(c);
        }
        i += 1;
    }
    assert(s@.take(s@.len() as int) =~= s@);
    out
}


// ── byte offsets ────────────────────────────────────────────────────

/// The UTF-8 bytes of a text.
pub open spec fn utf8(s: Seq<char>) -> Seq<u8> {
    vstd::utf8::encode_utf8(s)
}

/// The text of bytes `lo..hi` of `s`.
pub open spec fn byte_range(s: Seq<char>, lo: int, hi: int) -> Seq<char> {
    vstd::utf8::decode_utf8(utf8(s).subrange(lo, hi))
}

/// Every character is ASCII.
pub open spec fn is_ascii_text(s: Seq<char>) -> bool {
    forall|i: int| 0 <= i < s.len() ==> ((#[trigger] s[i]) as u32) < 128
}

/// The lines of ASCII text are ASCII.
pub proof fn lemma_lines_ascii(s: Seq<char>)
    requires
        is_ascii_text(s),
    ensures
        forall|k: int| 0 <= k < lines(s).len() ==> is_ascii_text(#[trigger] lines(s)[k]),
    decreases s.len(),
{
    if s.len() > 0 {
        lemma_index_of_char_from(s, '\n', 0);
        match index_of_char_from(s, '\n', 0) {
            Some(i) => {
                let rest = s.skip(i + 1);
                assert forall|q: int| 0 <= q < rest.len() implies ((#[trigger] rest[q]) as u32) < 128 by {
                    assert(rest[q] == s[q + i + 1]);
                }
                lemma_lines_ascii(rest);
                let first = strip_cr(s.take(i));
                assert forall|q: int| 0 <= q < first.len() implies ((#[trigger] first[q]) as u32) < 128 by {
                    assert(first[q] == s[q]);
                }
                assert forall|k: int| 0 <= k < lines(s).len() implies is_ascii_text(#[trigger] lines(s)[k]) by {
                    if k > 0 {
                        assert(lines(s)[k] == lines(rest)[k - 1]);
                    }
                }
            },
            None => {},
        }
    }
}

proof fn lemma_utf8_ascii(l: Seq<char>)
    requires
        is_ascii_text(l),
    ensures
        utf8(l).len() == l.len(),
        forall|i: int| 0 <= i < utf8(l).len() ==> #[trigger] utf8(l)[i] < 0x80u8,
    decreases l.len(),
{
    if l.len() > 0 {
        let rest = l.drop_first();
        assert forall|q: int| 0 <= q < rest.len() implies ((#[trigger] rest[q]) as u32) < 128 by {
            assert(rest[q] == l[q + 1]);
        }
        lemma_utf8_ascii(rest);
        let v = l[0] as u32;
        assert(v < 128);
        assert(vstd::utf8::leading_byte_width_1(v) < 0x80u8) by (bit_vector)
            requires
                v < 128,
        ;
        let head = vstd::utf8::encode_scalar(v);
        assert(head == seq![vstd::utf8::leading_byte_width_1(v)]);
        assert(utf8(l) == head + utf8(rest));
        assert forall|i: int| 0 <= i < utf8(l).len() implies #[trigger] utf8(l)[i] < 0x80u8 by {
            if i > 0 {
                assert(utf8(l)[i] == utf8(rest)[i - 1]);
            }
        }
    }
}

/// ASCII text encodes byte for byte.
pub proof fn lemma_utf8_ascii_bytes(l: Seq<char>)
    requires
        is_ascii_text(l),
    ensures
        utf8(l).len() == l.len(),
        forall|i: int| 0 <= i < l.len() ==> (#[trigger] utf8(l)[i]) as u32 == l[i] as u32,
    decreases l.len(),
{
    if l.len() > 0 {
        let rest = l.drop_first();
        assert forall|q: int| 0 <= q < rest.len() implies ((#[trigger] rest[q]) as u32) < 128 by {
            assert(rest[q] == l[q + 1]);
        }
        lemma_utf8_ascii_bytes(rest);
        let v = l[0] as u32;
        assert(v < 128);
        assert((vstd::utf8::leading_byte_width_1(v) as u32) == v) by (bit_vector)
            requires
                v < 128,
        ;
        let head = vstd::utf8::encode_scalar(v);
        assert(head == seq![vstd::utf8::leading_byte_width_1(v)]);
        assert(utf8(l) == head + utf8(rest));
        assert forall|i: int| 0 <= i < l.len() implies (#[trigger] utf8(l)[i]) as u32 == l[i] as u32 by {
            if i > 0 {
                assert(utf8(l)[i] == utf8(rest)[i - 1]);
                assert(rest[i - 1] == l[i]);
            }
        }
    }
}

/// Encoding distributes over concatenation.
pub proof fn lemma_utf8_concat(a: Seq<char>, b: Seq<char>)
    ensures
        utf8(a + b) == utf8(a) + utf8(b),
    decreases a.len(),
{
    if a.len() == 0 {
        assert(a + b =~= b);
        assert(utf8(a) =~= Seq::<u8>::empty());
        assert(utf8(a) + utf8(b) =~= utf8(b));
    } else {
        lemma_utf8_concat(a.drop_first(), b);
        assert((a + b).drop_first() =~= a.drop_first() + b);
        assert((a + b)[0] == a[0]);
        let h = vstd::utf8::encode_scalar(a[0] as u32);
        assert(utf8(a + b) == h + utf8(a.drop_first() + b));
        assert(utf8(a) == h + utf8(a.drop_first()));
        assert(h + (utf8(a.drop_first()) + utf8(b)) =~= (h + utf8(a.drop_first())) + utf8(b));
    }
}

/// In ASCII text every byte offset up to the length falls on a
/// character boundary.
pub proof fn lemma_ascii_sliceable(l: Seq<char>, lo: int, hi: int)
    requires
        is_ascii_text(l),
        0 <= lo <= hi <= l.len(),
    ensures
        sliceable(l, lo, hi),
        utf8(l).len() == l.len(),
{
    let b = utf8(l);
    lemma_utf8_ascii(l);
    vstd::utf8::encode_utf8_valid_utf8(l);
    vstd::utf8::is_char_boundary_start_end_of_seq(b);
    if lo < b.len() {
        vstd::utf8::is_char_boundary_iff_not_is_continuation_byte(b, lo);
    }
    if hi < b.len() {
        vstd::utf8::is_char_boundary_iff_not_is_continuation_byte(b, hi);
    }
}

/// Number of occurrences of `c` in `s`.
pub open spec fn count_char(s: Seq<char>, c: char) -> nat
    decreases s.len(),
{
    if s.len() == 0 {
        0
    } else {
        count_char(s.drop_last(), c) + if s.last() == c {
            1nat
        } else {
            0nat
        }
    }
}

pub proof fn lemma_count_char_concat(a: Seq<char>, b: Seq<char>, c: char)
    ensures
        count_char(a + b, c) == count_char(a, c) + count_char(b, c),
    decreases b.len(),
{
    if b.len() == 0 {
        assert(a + b =~= a);
    } else {
        lemma_count_char_concat(a, b.drop_last(), c);
        assert((a + b).drop_last() =~= a + b.drop_last());
        assert((a + b).last() == b.last());
    }
}

pub proof fn lemma_count_char_absent(s: Seq<char>, c: char)
    requires
        !s.contains(c),
    ensures
        count_char(s, c) == 0,
    decreases s.len(),
{
    if s.len() > 0 {
        assert(!s.drop_last().contains(c)) by {
            if s.drop_last().contains(c) {
                let q = choose|q: int| 0 <= q < s.drop_last().len() && s.drop_last()[q] == c;
                assert(s[q] == c);
            }
        }
        lemma_count_char_absent(s.drop_last(), c);
        assert(s[s.len() - 1] == s.last());
    }
}

/// No line of [`lines`] holds a newline.
pub proof fn lemma_lines_no_newline(s: Seq<char>)
    ensures
        forall|k: int| 0 <= k < lines(s).len() ==> !(#[trigger] lines(s)[k]).contains('\n'),
    decreases s.len(),
{
    if s.len() > 0 {
        lemma_index_of_char_from(s, '\n', 0);
        match index_of_char_from(s, '\n', 0) {
            Some(i) => {
                lemma_lines_no_newline(s.skip(i + 1));
                let first = strip_cr(s.take(i));
                assert(!first.contains('\n')) by {
                    if first.contains('\n') {
                        let q = choose|q: int| 0 <= q < first.len() && first[q] == '\n';
                        assert(s[q] == '\n');
                    }
                }
                let rest = lines(s.skip(i + 1));
                assert forall|k: int| 0 <= k < lines(s).len() implies !(#[trigger] lines(s)[k]).contains('\n') by {
                    if k > 0 {
                        assert(lines(s)[k] == rest[k - 1]);
                    }
                }
            },
            None => {
                assert(!s.contains('\n')) by {
                    if s.contains('\n') {
                        let q = choose|q: int| 0 <= q < s.len() && s[q] == '\n';
                    }
                }
            },
        }
    }
}

proof fn lemma_encode_scalar_no_newline(v: u32)
    requires
        vstd::utf8::is_scalar(v),
        v != 10,
    ensures
        forall|i: int| 0 <= i < vstd::utf8::encode_scalar(v).len() ==> #[trigger] vstd::utf8::encode_scalar(v)[i] != 10u8,
{
    if vstd::utf8::has_width_1_encoding(v) {
        assert(vstd::utf8::leading_byte_width_1(v) != 10u8) by (bit_vector)
            requires
                v <= 0x7f,
                v != 10,
        ;
    } else {
        assert(vstd::utf8::leading_byte_width_2(v) != 10u8) by (bit_vector);
        assert(vstd::utf8::leading_byte_width_3(v) != 10u8) by (bit_vector);
        assert(vstd::utf8::leading_byte_width_4(v) != 10u8) by (bit_vector);
        assert(vstd::utf8::last_continuation_byte(v) != 10u8) by (bit_vector);
        assert(vstd::utf8::second_last_continuation_byte(v) != 10u8) by (bit_vector);
        assert(vstd::utf8::third_last_continuation_byte(v) != 10u8) by (bit_vector);
    }
}

/// Text without a newline encodes to bytes without a newline byte.
proof fn lemma_encode_no_newline(l: Seq<char>)
    requires
        !l.contains('\n'),
    ensures
        forall|i: int| 0 <= i < utf8(l).len() ==> #[trigger] utf8(l)[i] != 10u8,
    decreases l.len(),
{
    if l.len() > 0 {
        let rest = l.drop_first();
        assert(!rest.contains('\n')) by {
            if rest.contains('\n') {
                let q = choose|q: int| 0 <= q < rest.len() && rest[q] == '\n';
                assert(l[q + 1] == '\n');
            }
        }
        lemma_encode_no_newline(rest);
        let v = l[0] as u32;
        vstd::utf8::char_is_scalar(l[0]);
        if v == 10 {
            vstd::utf8::char_u32_cast(l[0], v);
            assert(l[0] == '\n');
        }
        lemma_encode_scalar_no_newline(v);
        let head = vstd::utf8::encode_scalar(v);
        let tail = utf8(rest);
        assert(utf8(l) == head + tail);
        assert forall|i: int| 0 <= i < utf8(l).len() implies #[trigger] utf8(l)[i] != 10u8 by {
            if i < head.len() {
                assert(utf8(l)[i] == head[i]);
            } else {
                assert(utf8(l)[i] == tail[i - head.len()]);
            }
        }
    }
}

/// Valid bytes without a newline byte decode to text without a newline.
proof fn lemma_decode_no_newline(b: Seq<u8>)
    requires
        vstd::utf8::valid_utf8(b),
        forall|i: int| 0 <= i < b.len() ==> #[trigger] b[i] != 10u8,
    ensures
        !vstd::utf8::decode_utf8(b).contains('\n'),
    decreases b.len(),
{
    if b.len() > 0 {
        let n = vstd::utf8::length_of_first_scalar(b);
        let rest = vstd::utf8::pop_first_scalar(b);
        assert(rest.len() < b.len());
        assert forall|i: int| 0 <= i < rest.len() implies #[trigger] rest[i] != 10u8 by {
            assert(rest[i] == b[i + n]);
        }
        lemma_decode_no_newline(rest);
        let v = vstd::utf8::decode_first_scalar(b);
        let b0 = b[0];
        if vstd::utf8::is_leading_byte_width_1(b0) {
            assert(b0 != 10u8);
            assert((b0 & 0x7F) as u32 != 10u32) by (bit_vector)
                requires
                    b0 <= 0x7f,
                    b0 != 10u8,
            ;
        }
        assert(v != 10);
        let d = vstd::utf8::decode_utf8(b);
        assert(d == seq![v as char] + vstd::utf8::decode_utf8(rest));
        assert(!d.contains('\n')) by {
            if d.contains('\n') {
                let q = choose|q: int| 0 <= q < d.len() && d[q] == '\n';
                if q > 0 {
                    assert(vstd::utf8::decode_utf8(rest)[q - 1] == '\n');
                } else {
                    assert((v as char) == '\n');
                    vstd::utf8::decode_utf8_first_scalar(b);
                    assert(('\n' as u32) == 10u32);
                    assert(vstd::utf8::leading_byte_width_1(10u32) == 10u8) by (bit_vector);
                    let t = vstd::utf8::take_first_scalar(b);
                    assert(t == vstd::utf8::encode_scalar(10u32));
                    assert(t[0] == b[0]);
                }
            }
        }
    }
}

/// A slice between character boundaries of text without a newline
/// holds no newline.
pub proof fn lemma_byte_range_no_newline(l: Seq<char>, lo: int, hi: int)
    requires
        !l.contains('\n'),
        sliceable(l, lo, hi),
    ensures
        !byte_range(l, lo, hi).contains('\n'),
{
    let bytes = utf8(l);
    vstd::utf8::encode_utf8_valid_utf8(l);
    lemma_encode_no_newline(l);
    vstd::utf8::valid_utf8_split(bytes, lo);
    let tail = bytes.subrange(lo, bytes.len() as int);
    vstd::utf8::is_char_boundary_start_end_of_seq(tail);
    if hi < bytes.len() {
        vstd::utf8::is_char_boundary_iff_not_is_continuation_byte(bytes, hi);
        vstd::utf8::is_char_boundary_iff_not_is_continuation_byte(tail, hi - lo);
        assert(tail[hi - lo] == bytes[hi]);
    } else {
        assert(hi - lo == tail.len());
    }
    vstd::utf8::valid_utf8_split(tail, hi - lo);
    let sub = bytes.subrange(lo, hi);
    assert(tail.subrange(0, hi - lo) =~= sub);
    assert forall|i: int| 0 <= i < sub.len() implies #[trigger] sub[i] != 10u8 by {
        assert(sub[i] == bytes[i + lo]);
    }
    lemma_decode_no_newline(sub);
}

/// Both ends fall on character boundaries, in order.
pub open spec fn sliceable(s: Seq<char>, lo: int, hi: int) -> bool {
    0 <= lo <= hi <= utf8(s).len() && vstd::utf8::is_char_boundary(utf8(s), lo)
        && vstd::utf8::is_char_boundary(utf8(s), hi)
}

/// `&s[lo..hi]` by byte offsets.
pub fn byte_slice(s: &str, lo: usize, hi: usize) -> (r: &str)
    requires
        sliceable(s@, lo as int, hi as int),
    ensures
        r@ == byte_range(s@, lo as int, hi as int),
        utf8(r@) == utf8(s@).subrange(lo as int, hi as int),
{
    broadcast use vstd::utf8::encode_utf8_valid_utf8, vstd::utf8::encode_utf8_decode_utf8;

    let ghost b = utf8(s@);
    let (_, rest) = s.split_at(lo);
    let ghost rb = utf8(rest@);
    assert(rb =~= b.subrange(lo as int, b.len() as int));
    proof {
        vstd::utf8::valid_utf8_split(b, lo as int);
        let k = hi - lo;
        if k < rb.len() {
            vstd::utf8::is_char_boundary_iff_not_is_continuation_byte(b, hi as int);
            vstd::utf8::is_char_boundary_iff_not_is_continuation_byte(rb, k);
            assert(rb[k] == b[hi as int]);
        } else {
            vstd::utf8::is_char_boundary_start_end_of_seq(rb);
        }
    }
    let (mid, _) = rest.split_at(hi - lo);
    assert(utf8(mid@) =~= b.subrange(lo as int, hi as int));
    proof {
        vstd::utf8::encode_utf8_decode_utf8(mid@);
    }
    mid
}

/// Whether byte `i` of `s` starts a character (or is its end).
pub fn is_char_boundary_at(s: &str, i: usize) -> (b: bool)
    ensures
        b == vstd::utf8::is_char_boundary(utf8(s@), i as int),
{
    s.is_char_boundary(i)
}


/// Every non-overlapping occurrence of a non-empty `p`, leftmost first,
/// replaced by `to` (`str::replace`).
pub open spec fn replace_all(s: Seq<char>, p: Seq<char>, to: Seq<char>) -> Seq<char>
    decreases s.len(),
{
    if s.len() == 0 {
        s
    } else if p.len() > 0 && starts_with(s, p) {
        to + replace_all(s.skip(p.len() as int), p, to)
    } else {
        seq![s[0]] + replace_all(s.drop_first(), p, to)
    }
}

pub fn replace_all_exec(s: &[char], p: &[char], to: &[char]) -> (r: Vec<char>)
    ensures
        r@ == replace_all(s@, p@, to@),
{
    let mut r: Vec<char> = Vec::new();
    let mut i: usize = 0;
    let slen = s.len();
    let plen = p.len();
    assert(s@.skip(0) =~= s@);
    while i < slen
        invariant
            i <= slen,
            slen == s@.len(),
            plen == p@.len(),
            r@ + replace_all(s@.skip(i as int), p@, to@) == replace_all(s@, p@, to@),
        decreases slen - i,
    {
        let ghost rest = s@.skip(i as int);
        if plen > 0 && occurs_at_exec(s, p, i) {
            assert(starts_with(rest, p@)) by {
                assert(rest.take(p@.len() as int) =~= s@.subrange(i as int, i + p@.len()));
            }
            assert(rest.skip(p@.len() as int) =~= s@.skip(i + p@.len()));
            let ghost before = r@;
            push_all(&mut r, to);
            assert(r@ + replace_all(s@.skip(i + p@.len()), p@, to@) =~= before + (to@ + replace_all(rest.skip(p@.len() as int), p@, to@)));
            i += plen;
        } else {
            assert(!(p@.len() > 0 && starts_with(rest, p@))) by {
                if p@.len() > 0 && starts_with(rest, p@) {
                    assert(rest.take(p@.len() as int) =~= s@.subrange(i as int, i + p@.len()));
                }
            }
            assert(rest.drop_first() =~= s@.skip(i + 1));
            assert(rest[0] == s@[i as int]);
            r.push(s[i]);
            assert(r@ + replace_all(s@.skip(i + 1), p@, to@) =~= (r@.drop_last() + (seq![rest[0]] + replace_all(rest.drop_first(), p@, to@))));
            i += 1;
        }
    }
    assert(s@.skip(slen as int) =~= Seq::<char>::empty());
    assert(r@ + Seq::<char>::empty() =~= r@);
    r
}


// ── numbers ─────────────────────────────────────────────────────────

/// The decimal digit character of `d` (`0 <= d < 10`).
pub open spec fn digit_char(d: int) -> char {
    ((48 + d) as u8) as char
}

/// The decimal text of `n` (`n.to_string()`).
pub open spec fn decimal(n: nat) -> Seq<char>
    decreases n,
{
    if n < 10 {
        seq![digit_char(n as int)]
    } else {
        decimal(n / 10).push(digit_char((n % 10) as int))
    }
}

pub fn decimal_exec(n: usize) -> (r: Vec<char>)
    ensures
        r@ == decimal(n as nat),
    decreases n,
{
    let d = (n % 10) as u8;
    let c = (48u8 + d) as char;
    assert(c == digit_char((n % 10) as int));
    if n < 10 {
        let mut v: Vec<char> = Vec::new();
        v.push(c);
        assert(v@ =~= seq![c]);
        v
    } else {
        let mut v = decimal_exec(n / 10);
        v.push(c);
        v
    }
}

} // verus!

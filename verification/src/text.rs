//! Settings text as the environment gives it: trimmed of Unicode white space, compared
//! without ASCII case, or exactly.
use vstd::prelude::*;
use vstd::string::StrSliceExecFns;

verus! {

/// Unicode `White_Space`, as `char::is_whitespace` tests it.
pub open spec fn is_white(c: char) -> bool {
    let n = c as u32;
    (0x09 <= n <= 0x0d) || n == 0x20 || n == 0x85 || n == 0xa0 || n == 0x1680 || (0x2000 <= n
        <= 0x200a) || n == 0x2028 || n == 0x2029 || n == 0x202f || n == 0x205f || n == 0x3000
}

fn white(c: char) -> (w: bool)
    ensures
        w == is_white(c),
{
    let n = c as u32;
    (0x09 <= n && n <= 0x0d) || n == 0x20 || n == 0x85 || n == 0xa0 || n == 0x1680 || (0x2000
        <= n && n <= 0x200a) || n == 0x2028 || n == 0x2029 || n == 0x202f || n == 0x205f || n
        == 0x3000
}

/// The index of the first character from `from` that is not white, or the length.
pub open spec fn first_solid(s: Seq<char>, from: int) -> int
    decreases s.len() - from,
{
    if from < 0 || from >= s.len() {
        s.len() as int
    } else if !is_white(s[from]) {
        from
    } else {
        first_solid(s, from + 1)
    }
}

/// One past the last character before `to` that is not white, or `floor`.
pub open spec fn last_solid(s: Seq<char>, floor: int, to: int) -> int
    decreases to - floor,
{
    if to <= floor || to > s.len() {
        floor
    } else if !is_white(s[to - 1]) {
        to
    } else {
        last_solid(s, floor, to - 1)
    }
}

/// `str::trim`.
pub open spec fn trimmed(s: Seq<char>) -> Seq<char> {
    let a = first_solid(s, 0);
    s.subrange(a, last_solid(s, a, s.len() as int))
}

/// `to_ascii_lowercase` of one character.
pub open spec fn lower(c: char) -> char {
    if 'A' <= c <= 'Z' {
        ((c as u32) + 32) as char
    } else {
        c
    }
}

/// `str::trim` then `to_ascii_lowercase`.
pub open spec fn normalized(s: Seq<char>) -> Seq<char> {
    trimmed(s).map_values(|c: char| lower(c))
}

proof fn lemma_first_solid(s: Seq<char>, from: int)
    requires
        0 <= from,
    ensures
        from <= first_solid(s, from) <= s.len() || from > s.len(),
    decreases s.len() - from,
{
    if from < s.len() && is_white(s[from]) {
        lemma_first_solid(s, from + 1);
    }
}

proof fn lemma_last_solid(s: Seq<char>, floor: int, to: int)
    requires
        0 <= floor <= to <= s.len(),
    ensures
        floor <= last_solid(s, floor, to) <= to,
    decreases to - floor,
{
    if to > floor && is_white(s[to - 1]) {
        lemma_last_solid(s, floor, to - 1);
    }
}

/// The characters of `s`, trimmed and in ASCII lower case.
pub fn normalize(s: &str) -> (chars: Vec<char>)
    ensures
        chars@ == normalized(s@),
{
    let n = s.unicode_len();
    let a = first_solid_index(s, n);
    let b = last_solid_index(s, a, n);
    let mut chars: Vec<char> = Vec::new();
    let mut i = a;
    while i < b
        invariant
            a <= i <= b <= n == s@.len(),
            chars@ == s@.subrange(a as int, i as int).map_values(|c: char| lower(c)),
        decreases b - i,
    {
        let c = s.get_char(i);
        let l = if 'A' <= c && c <= 'Z' {
            ((c as u8) + 32) as char
        } else {
            c
        };
        chars.push(l);
        i = i + 1;
        assert(chars@ =~= s@.subrange(a as int, i as int).map_values(|c: char| lower(c)));
    }
    chars
}

fn first_solid_index(s: &str, n: usize) -> (a: usize)
    requires
        n == s@.len(),
    ensures
        a == first_solid(s@, 0),
        a <= n,
{
    proof {
        lemma_first_solid(s@, 0);
    }
    let mut a: usize = 0;
    while a < n
        invariant
            a <= n == s@.len(),
            first_solid(s@, 0) == first_solid(s@, a as int),
        decreases n - a,
    {
        if !white(s.get_char(a)) {
            return a;
        }
        a = a + 1;
    }
    a
}

fn last_solid_index(s: &str, a: usize, n: usize) -> (b: usize)
    requires
        a <= n == s@.len(),
    ensures
        b == last_solid(s@, a as int, n as int),
        a <= b <= n,
{
    proof {
        lemma_last_solid(s@, a as int, n as int);
    }
    let mut b: usize = n;
    while b > a
        invariant
            a <= b <= n == s@.len(),
            last_solid(s@, a as int, n as int) == last_solid(s@, a as int, b as int),
        decreases b - a,
    {
        if !white(s.get_char(b - 1)) {
            return b;
        }
        b = b - 1;
    }
    b
}

/// Whether `chars` spell `word` exactly.
pub fn spells(chars: &Vec<char>, word: &str) -> (same: bool)
    ensures
        same == (chars@ == word@),
{
    let n = word.unicode_len();
    if chars.len() != n {
        return false;
    }
    let mut i: usize = 0;
    while i < n
        invariant
            i <= n == word@.len() == chars@.len(),
            forall|j: int| 0 <= j < i ==> chars@[j] == word@[j],
        decreases n - i,
    {
        if chars[i] != word.get_char(i) {
            return false;
        }
        i = i + 1;
    }
    assert(chars@ =~= word@);
    true
}

/// Whether `value` is exactly `word`.
pub fn is_word(value: &str, word: &str) -> (same: bool)
    ensures
        same == (value@ == word@),
{
    let n = word.unicode_len();
    if value.unicode_len() != n {
        return false;
    }
    let mut i: usize = 0;
    while i < n
        invariant
            i <= n == word@.len() == value@.len(),
            forall|j: int| 0 <= j < i ==> value@[j] == word@[j],
        decreases n - i,
    {
        if value.get_char(i) != word.get_char(i) {
            return false;
        }
        i = i + 1;
    }
    assert(value@ =~= word@);
    true
}

/// Whether `value` begins with `prefix`.
pub fn has_prefix(value: &str, prefix: &str) -> (begins: bool)
    ensures
        begins == (prefix@.len() <= value@.len() && value@.subrange(0, prefix@.len() as int) == prefix@),
{
    let n = prefix.unicode_len();
    if value.unicode_len() < n {
        return false;
    }
    let mut i: usize = 0;
    while i < n
        invariant
            i <= n == prefix@.len() <= value@.len(),
            forall|j: int| 0 <= j < i ==> value@[j] == prefix@[j],
        decreases n - i,
    {
        if value.get_char(i) != prefix.get_char(i) {
            assert(value@.subrange(0, n as int)[i as int] != prefix@[i as int]);
            return false;
        }
        i = i + 1;
    }
    assert(value@.subrange(0, n as int) =~= prefix@);
    true
}

} // verus!

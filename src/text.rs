use vstd::prelude::*;

verus! {

/// The Unicode `White_Space` characters (what `char::is_whitespace` accepts).
pub open spec fn is_space(c: char) -> bool {
    let u = c as u32;
    (9 <= u && u <= 13) || u == 32 || u == 0x85 || u == 0xA0 || u == 0x1680 || (0x2000 <= u
        && u <= 0x200A) || u == 0x2028 || u == 0x2029 || u == 0x202F || u == 0x205F || u == 0x3000
}

pub fn is_space_char(c: char) -> (r: bool)
    ensures
        r == is_space(c),
{
    let u = c as u32;
    (9 <= u && u <= 13) || u == 32 || u == 0x85 || u == 0xA0 || u == 0x1680 || (0x2000 <= u
        && u <= 0x200A) || u == 0x2028 || u == 0x2029 || u == 0x202F || u == 0x205F || u == 0x3000
}

/// `a` equals `w`, or `w` is a lower-case ASCII letter and `a` is its upper-case form.
pub open spec fn same_letter(a: char, w: char) -> bool {
    a == w || (97 <= (w as u32) && (w as u32) <= 122 && (a as u32) + 32 == (w as u32))
}

/// `t` spells the lower-case word `w`, ignoring ASCII case.
pub open spec fn matches_word(t: Seq<char>, w: Seq<char>) -> bool {
    &&& t.len() == w.len()
    &&& forall|i: int| 0 <= i < t.len() ==> same_letter(#[trigger] t[i], w[i])
}

/// A token that spells a word has the word's length and starts with its first letter.
pub proof fn lemma_word_start(t: Seq<char>, w: Seq<char>)
    requires
        t.len() > 0,
    ensures
        matches_word(t, w) ==> t.len() == w.len() && same_letter(t[0], w[0]),
{
}

/// Whether the characters `start..end` of `s` spell the word `w`, ignoring ASCII case.
pub fn word_at(s: &str, start: usize, end: usize, w: &str) -> (r: bool)
    requires
        start <= end <= s@.len(),
    ensures
        r == matches_word(s@.subrange(start as int, end as int), w@),
{
    let n = w.unicode_len();
    if end - start != n {
        return false;
    }
    let mut i: usize = 0;
    while i < n
        invariant
            start + n == end <= s@.len(),
            n == w@.len(),
            i <= n,
            forall|k: int| 0 <= k < i ==> same_letter(s@[start + k], w@[k]),
        decreases n - i,
    {
        let a = s.get_char(start + i);
        let b = w.get_char(i);
        let same = a == b || (97 <= (b as u32) && (b as u32) <= 122 && (a as u32) == (b as u32)
            - 32);
        if !same {
            assert(!same_letter(s@.subrange(start as int, end as int)[i as int], w@[i as int]));
            return false;
        }
        i += 1;
    }
    assert forall|k: int| 0 <= k < n implies same_letter(
        #[trigger] s@.subrange(start as int, end as int)[k],
        w@[k],
    ) by {
        assert(s@.subrange(start as int, end as int)[k] == s@[start + k]);
    }
    true
}

/// `t` without the whitespace at its start and at its end.
pub open spec fn trimmed(t: Seq<char>) -> Seq<char>
    decreases t.len(),
{
    if t.len() > 0 && is_space(t[0]) {
        trimmed(t.drop_first())
    } else if t.len() > 0 && is_space(t.last()) {
        trimmed(t.drop_last())
    } else {
        t
    }
}

/// The bounds of what is left of `s` once whitespace is dropped from both ends.
pub fn trim_bounds(s: &str) -> (r: (usize, usize))
    ensures
        r.0 <= r.1 <= s@.len(),
        s@.subrange(r.0 as int, r.1 as int) == trimmed(s@),
{
    let n = s.unicode_len();
    let mut a: usize = 0;
    assert(s@.subrange(0, n as int) =~= s@);
    while a < n && is_space_char(s.get_char(a))
        invariant
            a <= n == s@.len(),
            trimmed(s@) == trimmed(s@.subrange(a as int, n as int)),
        decreases n - a,
    {
        assert(s@.subrange(a as int, n as int).drop_first() =~= s@.subrange(a + 1, n as int));
        a += 1;
    }
    let mut b: usize = n;
    while b > a && is_space_char(s.get_char(b - 1))
        invariant
            a <= b <= n == s@.len(),
            a < n ==> !is_space(s@[a as int]),
            trimmed(s@) == trimmed(s@.subrange(a as int, b as int)),
        decreases b,
    {
        let ghost t = s@.subrange(a as int, b as int);
        assert(t.drop_last() =~= s@.subrange(a as int, b - 1));
        assert(t[0] == s@[a as int]);
        b -= 1;
    }
    proof {
        let t = s@.subrange(a as int, b as int);
        if a < b {
            assert(t[0] == s@[a as int]);
            assert(t.last() == s@[b - 1]);
        }
    }
    (a, b)
}

/// Whether `s` and `w` hold the same characters.
pub fn same_text(s: &str, w: &str) -> (r: bool)
    ensures
        r == (s@ == w@),
{
    let n = s.unicode_len();
    if n != w.unicode_len() {
        return false;
    }
    let mut i: usize = 0;
    while i < n
        invariant
            n == s@.len() == w@.len(),
            i <= n,
            forall|k: int| 0 <= k < i ==> s@[k] == w@[k],
        decreases n - i,
    {
        if s.get_char(i) != w.get_char(i) {
            return false;
        }
        i += 1;
    }
    assert(s@ =~= w@);
    true
}

} // verus!

//! Small helpers for building display strings out of verified pieces.
use vstd::prelude::*;
use vstd::std_specs::iter::IteratorSpec;

verus! {

/// The character for a single decimal digit.
pub open spec fn digit_char(d: nat) -> char {
    if d == 0 {
        '0'
    } else if d == 1 {
        '1'
    } else if d == 2 {
        '2'
    } else if d == 3 {
        '3'
    } else if d == 4 {
        '4'
    } else if d == 5 {
        '5'
    } else if d == 6 {
        '6'
    } else if d == 7 {
        '7'
    } else if d == 8 {
        '8'
    } else {
        '9'
    }
}

/// Decimal representation of a natural number, most significant digit first,
/// without leading zeros (zero itself is "0").
pub open spec fn decimal(n: nat) -> Seq<char>
    decreases n,
{
    if n < 10 {
        seq![digit_char(n)]
    } else {
        decimal(n / 10).push(digit_char(n % 10))
    }
}

/// Appends one character to a string by calling `String::push`; the
/// contract claims only what its documentation says: the string's
/// characters are the old ones followed by `c`.
#[verifier::external_body]
pub(crate) fn push_char(s: &mut String, c: char)
    ensures
        final(s)@ == old(s)@.push(c),
{
    s.push(c);
}

/// Unicode white space (the `White_Space` property, which `char::is_whitespace`
/// and `str::trim` use).
pub open spec fn is_white(c: char) -> bool {
    ||| ('\u{9}' <= c && c <= '\u{d}')
    ||| c == ' '
    ||| c == '\u{85}'
    ||| c == '\u{a0}'
    ||| c == '\u{1680}'
    ||| ('\u{2000}' <= c && c <= '\u{200a}')
    ||| c == '\u{2028}'
    ||| c == '\u{2029}'
    ||| c == '\u{202f}'
    ||| c == '\u{205f}'
    ||| c == '\u{3000}'
}

/// How many white space characters `s` starts with.
pub open spec fn lead_white(s: Seq<char>) -> nat
    decreases s.len(),
{
    if s.len() == 0 || !is_white(s[0]) {
        0
    } else {
        1 + lead_white(s.drop_first())
    }
}

/// How many white space characters `s` ends with.
pub open spec fn trail_white(s: Seq<char>) -> nat
    decreases s.len(),
{
    if s.len() == 0 || !is_white(s.last()) {
        0
    } else {
        1 + trail_white(s.drop_last())
    }
}

/// `s` without the white space at either end, as `str::trim` gives it.
pub open spec fn trimmed(s: Seq<char>) -> Seq<char> {
    let t = s.skip(lead_white(s) as int);
    t.take(t.len() - trail_white(t))
}

/// Whether `c` is white space.
pub fn is_white_char(c: char) -> (r: bool)
    ensures
        r == is_white(c),
{
    ('\u{9}' <= c && c <= '\u{d}') || c == ' ' || c == '\u{85}' || c == '\u{a0}' || c == '\u{1680}'
        || ('\u{2000}' <= c && c <= '\u{200a}') || c == '\u{2028}' || c == '\u{2029}' || c == '\u{202f}'
        || c == '\u{205f}' || c == '\u{3000}'
}

proof fn lemma_lead_white(s: Seq<char>, i: int)
    requires
        0 <= i <= s.len(),
        forall|j: int| 0 <= j < i ==> is_white(#[trigger] s[j]),
    ensures
        lead_white(s) == i + lead_white(s.skip(i)),
    decreases i,
{
    if i > 0 {
        let t = s.drop_first();
        assert forall|j: int| 0 <= j < i - 1 implies is_white(#[trigger] t[j]) by {
            assert(t[j] == s[j + 1]);
        }
        lemma_lead_white(t, i - 1);
        assert(t.skip(i - 1) =~= s.skip(i));
    } else {
        assert(s.skip(0) =~= s);
    }
}

proof fn lemma_trail_white(s: Seq<char>, k: int)
    requires
        0 <= k <= s.len(),
        forall|j: int| s.len() - k <= j < s.len() ==> is_white(#[trigger] s[j]),
    ensures
        trail_white(s) == k + trail_white(s.take(s.len() - k)),
    decreases k,
{
    if k > 0 {
        let t = s.drop_last();
        assert forall|j: int| t.len() - (k - 1) <= j < t.len() implies is_white(#[trigger] t[j]) by {
            assert(t[j] == s[j]);
        }
        lemma_trail_white(t, k - 1);
        assert(t.take(t.len() - (k - 1)) =~= s.take(s.len() - k));
    } else {
        assert(s.take(s.len() as int) =~= s);
    }
}

/// `s` without the white space at either end (what `str::trim` gives).
pub fn trim(s: &str) -> (r: String)
    ensures
        r@ == trimmed(s@),
{
    let mut chars: Vec<char> = Vec::new();
    let mut it = s.chars();
    let ghost mut k: int = 0;
    proof {
        vstd::string::axiom_spec_iter(s);
    }
    loop
        invariant
            0 <= k <= s@.len(),
            it.remaining() == s@.skip(k),
            it.obeys_prophetic_iter_laws(),
            chars@ == s@.take(k),
        ensures
            chars@ == s@,
        decreases s@.len() - k,
    {
        let ghost it0 = it;
        let next = it.next();
        proof {
            vstd::string::next_postcondition(&it0, &it, next);
        }
        match next {
            None => {
                proof {
                    assert(s@.skip(k).len() == 0);
                    assert(s@.take(k) =~= s@);
                }
                break;
            },
            Some(c) => {
                proof {
                    assert(c == s@.skip(k)[0]);
                    assert(s@.take(k + 1) =~= s@.take(k).push(c));
                    assert(s@.skip(k).drop_first() =~= s@.skip(k + 1));
                }
                chars.push(c);
                proof {
                    k = k + 1;
                }
            },
        }
    }
    let n = chars.len();
    let mut lo: usize = 0;
    while lo < n && is_white_char(chars[lo])
        invariant
            lo <= n,
            n == chars@.len(),
            forall|j: int| 0 <= j < lo ==> is_white(#[trigger] chars@[j]),
        decreases n - lo,
    {
        lo = lo + 1;
    }
    let ghost t = s@.skip(lo as int);
    proof {
        lemma_lead_white(s@, lo as int);
        if lo < n {
            assert(s@.skip(lo as int)[0] == s@[lo as int]);
        }
        assert(lead_white(s@) == lo);
    }
    let mut hi: usize = n;
    while hi > lo && is_white_char(chars[hi - 1])
        invariant
            lo <= hi <= n,
            n == chars@.len(),
            forall|j: int| hi <= j < n ==> is_white(#[trigger] chars@[j]),
        decreases hi,
    {
        hi = hi - 1;
    }
    proof {
        let m = (n - hi) as int;
        assert forall|j: int| t.len() - m <= j < t.len() implies is_white(#[trigger] t[j]) by {
            assert(t[j] == chars@[j + lo]);
        }
        lemma_trail_white(t, m);
        let u = t.take(t.len() - m);
        if hi > lo {
            assert(u.last() == chars@[hi - 1]);
        } else {
            assert(u.len() == 0);
        }
        assert(trail_white(t) == m);
    }
    let mut r = String::new();
    let mut i: usize = lo;
    while i < hi
        invariant
            lo <= i <= hi <= n,
            n == chars@.len(),
            r@ == chars@.subrange(lo as int, i as int),
        decreases hi - i,
    {
        push_char(&mut r, chars[i]);
        proof {
            assert(chars@.subrange(lo as int, i + 1) =~= chars@.subrange(lo as int, i as int).push(chars@[i as int]));
        }
        i = i + 1;
    }
    proof {
        assert(r@ =~= trimmed(s@));
    }
    r
}

/// Appends the characters of a string slice.
pub fn push_str(s: &mut String, t: &str)
    ensures
        final(s)@ == old(s)@ + t@,
{
    s.append(t);
}

/// An owned copy of a string slice.
pub fn owned(t: &str) -> (s: String)
    ensures
        s@ == t@,
{
    let mut s = String::new();
    push_str(&mut s, t);
    proof {
        assert(s@ =~= t@);
    }
    s
}

/// Appends the characters of another string.
pub fn push_string(s: &mut String, t: &String)
    ensures
        final(s)@ == old(s)@ + t@,
{
    push_str(s, t.as_str());
}

/// The character for decimal digit `d`.
pub fn digit(d: u64) -> (c: char)
    requires
        d < 10,
    ensures
        c == digit_char(d as nat),
{
    if d == 0 {
        '0'
    } else if d == 1 {
        '1'
    } else if d == 2 {
        '2'
    } else if d == 3 {
        '3'
    } else if d == 4 {
        '4'
    } else if d == 5 {
        '5'
    } else if d == 6 {
        '6'
    } else if d == 7 {
        '7'
    } else if d == 8 {
        '8'
    } else {
        '9'
    }
}

/// Appends the decimal representation of `n`.
pub fn push_decimal(s: &mut String, n: u64)
    ensures
        final(s)@ == old(s)@ + decimal(n as nat),
    decreases n,
{
    if n >= 10 {
        push_decimal(s, n / 10);
    }
    push_char(s, digit(n % 10));
    proof {
        if n >= 10 {
            assert(decimal(n as nat) == decimal((n / 10) as nat).push(digit_char((n % 10) as nat)));
        }
    }
}

/// Whether `s` begins with `prefix`.
pub fn starts_with(s: &str, prefix: &str) -> (r: bool)
    ensures
        r == (prefix@.len() <= s@.len() && s@.subrange(0, prefix@.len() as int) == prefix@),
{
    let mut sc = s.chars();
    let mut pc = prefix.chars();
    let ghost mut k: int = 0;
    proof {
        vstd::string::axiom_spec_iter(s);
        vstd::string::axiom_spec_iter(prefix);
    }
    loop
        invariant
            0 <= k <= prefix@.len(),
            k <= s@.len(),
            sc.remaining() == s@.skip(k),
            pc.remaining() == prefix@.skip(k),
            sc.obeys_prophetic_iter_laws(),
            pc.obeys_prophetic_iter_laws(),
            s@.subrange(0, k) == prefix@.subrange(0, k),
        decreases prefix@.len() - k,
    {
        let ghost pc0 = pc;
        let ghost sc0 = sc;
        let next_p = pc.next();
        proof {
            vstd::string::next_postcondition(&pc0, &pc, next_p);
        }
        match next_p {
            None => {
                proof {
                    assert(prefix@.skip(k).len() == 0);
                    assert(k == prefix@.len());
                    assert(prefix@.subrange(0, k) =~= prefix@);
                }
                return true;
            },
            Some(c) => {
                let next_s = sc.next();
                proof {
                    vstd::string::next_postcondition(&sc0, &sc, next_s);
                    assert(c == prefix@[k]);
                }
                match next_s {
                    None => {
                        return false;
                    },
                    Some(d) => {
                        proof {
                            assert(d == s@[k]);
                        }
                        if c != d {
                            return false;
                        }
                        proof {
                            assert(s@.subrange(0, k + 1) =~= s@.subrange(0, k).push(s@[k]));
                            assert(prefix@.subrange(0, k + 1) =~= prefix@.subrange(0, k).push(prefix@[k]));
                            assert(s@.skip(k).drop_first() =~= s@.skip(k + 1));
                            assert(prefix@.skip(k).drop_first() =~= prefix@.skip(k + 1));
                            k = k + 1;
                        }
                    },
                }
            },
        }
    }
}


/// Lexicographic order of character sequences by code point (the order of
/// `str` and `String`): `a` comes no later than `b`.
pub open spec fn text_le(a: Seq<char>, b: Seq<char>) -> bool
    decreases a.len(),
{
    if a.len() == 0 {
        true
    } else if b.len() == 0 {
        false
    } else if a[0] != b[0] {
        (a[0] as int) < (b[0] as int)
    } else {
        text_le(a.drop_first(), b.drop_first())
    }
}

/// Whether `a` sorts no later than `b`, comparing character by character.
pub fn text_le_exec(a: &str, b: &str) -> (r: bool)
    ensures
        r == text_le(a@, b@),
{
    let mut ac = a.chars();
    let mut bc = b.chars();
    let ghost mut k: int = 0;
    proof {
        vstd::string::axiom_spec_iter(a);
        vstd::string::axiom_spec_iter(b);
    }
    loop
        invariant
            0 <= k <= a@.len(),
            k <= b@.len(),
            ac.remaining() == a@.skip(k),
            bc.remaining() == b@.skip(k),
            ac.obeys_prophetic_iter_laws(),
            bc.obeys_prophetic_iter_laws(),
            text_le(a@, b@) == text_le(a@.skip(k), b@.skip(k)),
        decreases a@.len() - k,
    {
        let ghost ac0 = ac;
        let ghost bc0 = bc;
        let next_a = ac.next();
        proof {
            vstd::string::next_postcondition(&ac0, &ac, next_a);
        }
        match next_a {
            None => {
                proof {
                    assert(a@.skip(k).len() == 0);
                }
                return true;
            },
            Some(c) => {
                let next_b = bc.next();
                proof {
                    vstd::string::next_postcondition(&bc0, &bc, next_b);
                    assert(c == a@.skip(k)[0]);
                }
                match next_b {
                    None => {
                        proof {
                            assert(b@.skip(k).len() == 0);
                        }
                        return false;
                    },
                    Some(d) => {
                        proof {
                            assert(d == b@.skip(k)[0]);
                        }
                        if c != d {
                            return c < d;
                        }
                        proof {
                            assert(a@.skip(k).drop_first() =~= a@.skip(k + 1));
                            assert(b@.skip(k).drop_first() =~= b@.skip(k + 1));
                            k = k + 1;
                        }
                    },
                }
            },
        }
    }
}

} // verus!

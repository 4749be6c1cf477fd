//! Character classification and pattern matching on text.
use vstd::prelude::*;

verus! {

/// What `char::is_numeric` returns for a character (Unicode categories
/// Nd, Nl, No).
pub uninterp spec fn char_is_numeric(c: char) -> bool;

/// What `char::is_alphanumeric` returns for a character.
pub uninterp spec fn char_is_alphanumeric(c: char) -> bool;

/// What `char::is_uppercase` returns for a character.
pub uninterp spec fn char_is_uppercase(c: char) -> bool;

/// What `char::is_lowercase` returns for a character.
pub uninterp spec fn char_is_lowercase(c: char) -> bool;

/// An ASCII character.
pub open spec fn is_ascii_char(c: char) -> bool {
    (c as int) < 128
}

/// An ASCII decimal digit.
pub open spec fn is_ascii_digit_char(c: char) -> bool {
    '0' <= c && c <= '9'
}

/// An ASCII uppercase letter.
pub open spec fn is_ascii_upper_char(c: char) -> bool {
    'A' <= c && c <= 'Z'
}

/// An ASCII lowercase letter.
pub open spec fn is_ascii_lower_char(c: char) -> bool {
    'a' <= c && c <= 'z'
}

/// Calls `char::is_numeric`; its result is a function of the character alone,
/// given by Unicode tables. Of ASCII characters, the documented ones hold:
/// exactly the digits '0' to '9' are numeric.
#[verifier::external_body]
fn is_numeric(c: char) -> (b: bool)
    ensures
        b == char_is_numeric(c),
        is_ascii_char(c) ==> (b <==> is_ascii_digit_char(c)),
{
    c.is_numeric()
}

/// Calls `char::is_alphanumeric` (alphabetic or numeric); a function of the
/// character alone. Of ASCII characters exactly the letters and the digits
/// are alphanumeric.
#[verifier::external_body]
fn is_alphanumeric(c: char) -> (b: bool)
    ensures
        b == char_is_alphanumeric(c),
        is_ascii_char(c) ==> (b <==> (is_ascii_digit_char(c) || is_ascii_upper_char(c)
            || is_ascii_lower_char(c))),
{
    c.is_alphanumeric()
}

/// Calls `char::is_uppercase`; a function of the character alone. Of ASCII
/// characters exactly 'A' to 'Z' are uppercase.
#[verifier::external_body]
fn is_uppercase(c: char) -> (b: bool)
    ensures
        b == char_is_uppercase(c),
        is_ascii_char(c) ==> (b <==> is_ascii_upper_char(c)),
{
    c.is_uppercase()
}

/// Calls `char::is_lowercase`; a function of the character alone. Of ASCII
/// characters exactly 'a' to 'z' are lowercase.
#[verifier::external_body]
fn is_lowercase(c: char) -> (b: bool)
    ensures
        b == char_is_lowercase(c),
        is_ascii_char(c) ==> (b <==> is_ascii_lower_char(c)),
{
    c.is_lowercase()
}

/// The classes of character that a password rule can ask for.
#[derive(Debug, Clone, Copy, PartialEq, Eq, Structural)]
pub enum CharClass {
    /// A numeric character.
    Numeric,
    /// A character that is neither alphabetic nor numeric.
    Special,
    /// An uppercase letter.
    Uppercase,
    /// A lowercase letter.
    Lowercase,
}

/// Whether `c` belongs to `class`: for an ASCII character, by the ranges
/// that std documents ('0' to '9' numeric, 'A' to 'Z' uppercase, 'a' to 'z'
/// lowercase, anything else special); for others, by std's Unicode tables.
pub open spec fn in_class(c: char, class: CharClass) -> bool {
    if is_ascii_char(c) {
        match class {
            CharClass::Numeric => is_ascii_digit_char(c),
            CharClass::Special => !(is_ascii_digit_char(c) || is_ascii_upper_char(c) || is_ascii_lower_char(c)),
            CharClass::Uppercase => is_ascii_upper_char(c),
            CharClass::Lowercase => is_ascii_lower_char(c),
        }
    } else {
        match class {
            CharClass::Numeric => char_is_numeric(c),
            CharClass::Special => !char_is_alphanumeric(c),
            CharClass::Uppercase => char_is_uppercase(c),
            CharClass::Lowercase => char_is_lowercase(c),
        }
    }
}

/// Some character of `s` belongs to `class`.
pub open spec fn has_class(s: Seq<char>, class: CharClass) -> bool {
    exists|i: int| 0 <= i < s.len() && in_class(#[trigger] s[i], class)
}

fn char_in_class(c: char, class: CharClass) -> (b: bool)
    ensures
        b == in_class(c, class),
{
    match class {
        CharClass::Numeric => is_numeric(c),
        CharClass::Special => !is_alphanumeric(c),
        CharClass::Uppercase => is_uppercase(c),
        CharClass::Lowercase => is_lowercase(c),
    }
}

/// Whether some character of `s` belongs to `class`.
pub fn contains_class(s: &str, class: CharClass) -> (b: bool)
    ensures
        b == has_class(s@, class),
{
    let n = s.unicode_len();
    let mut i: usize = 0;
    while i < n
        invariant
            n == s@.len(),
            i <= n,
            forall|j: int| 0 <= j < i ==> !in_class(#[trigger] s@[j], class),
        decreases n - i,
    {
        let c = s.get_char(i);
        if char_in_class(c, class) {
            return true;
        }
        i = i + 1;
    }
    false
}

/// `p` is a prefix of `s`.
pub open spec fn is_prefix(p: Seq<char>, s: Seq<char>) -> bool {
    p.len() <= s.len() && s.subrange(0, p.len() as int) == p
}

/// A whitelist pattern: a trailing `*` matches any text that starts with the
/// rest of the pattern; any other pattern matches only itself.
pub open spec fn pattern_matches(pattern: Seq<char>, s: Seq<char>) -> bool {
    if pattern.len() > 0 && pattern.last() == '*' {
        is_prefix(pattern.drop_last(), s)
    } else {
        pattern == s
    }
}

/// Some pattern of the list matches `s`.
pub open spec fn any_pattern_matches(patterns: Seq<String>, s: Seq<char>) -> bool {
    exists|i: int| 0 <= i < patterns.len() && pattern_matches(#[trigger] patterns[i]@, s)
}

/// Whether `pattern` matches `s` in the sense of [`pattern_matches`].
pub fn matches_pattern(pattern: &str, s: &str) -> (b: bool)
    ensures
        b == pattern_matches(pattern@, s@),
{
    let pn = pattern.unicode_len();
    let sn = s.unicode_len();
    let wildcard = pn > 0 && pattern.get_char(pn - 1) == '*';
    let plen: usize = if wildcard { pn - 1 } else { pn };
    if wildcard {
        if plen > sn {
            return false;
        }
    } else if plen != sn {
        assert(pattern@.len() != s@.len());
        return false;
    }
    let mut i: usize = 0;
    while i < plen
        invariant
            pn == pattern@.len(),
            sn == s@.len(),
            plen <= pn,
            plen <= sn,
            i <= plen,
            wildcard == (pn > 0 && pattern@.last() == '*'),
            plen == (if wildcard { pn - 1 } else { pn as int }),
            forall|j: int| 0 <= j < i ==> pattern@[j] == s@[j],
        decreases plen - i,
    {
        if pattern.get_char(i) != s.get_char(i) {
            assert(s@.subrange(0, plen as int)[i as int] == s@[i as int]);
            if wildcard {
                assert(pattern@.drop_last()[i as int] == pattern@[i as int]);
            }
            return false;
        }
        i = i + 1;
    }
    if wildcard {
        assert(s@.subrange(0, plen as int) =~= pattern@.drop_last());
    } else {
        assert(pattern@ =~= s@);
    }
    true
}

/// Whether some pattern of `patterns` matches `s`.
pub fn matches_any_pattern(patterns: &Vec<String>, s: &str) -> (b: bool)
    ensures
        b == any_pattern_matches(patterns@, s@),
{
    let mut i: usize = 0;
    while i < patterns.len()
        invariant
            i <= patterns@.len(),
            forall|j: int| 0 <= j < i ==> !pattern_matches(#[trigger] patterns@[j]@, s@),
        decreases patterns.len() - i,
    {
        if matches_pattern(patterns[i].as_str(), s) {
            return true;
        }
        i = i + 1;
    }
    false
}

/// Whether two texts are equal, character by character.
pub fn text_eq(a: &str, b: &str) -> (r: bool)
    ensures
        r == (a@ == b@),
{
    let n = a.unicode_len();
    if n != b.unicode_len() {
        return false;
    }
    let mut i: usize = 0;
    while i < n
        invariant
            n == a@.len(),
            n == b@.len(),
            i <= n,
            forall|j: int| 0 <= j < i ==> a@[j] == b@[j],
        decreases n - i,
    {
        if a.get_char(i) != b.get_char(i) {
            return false;
        }
        i = i + 1;
    }
    assert(a@ =~= b@);
    true
}

/// A copy of `s`.
pub fn copy_text(s: &str) -> (r: String)
    ensures
        r@ == s@,
{
    String::from_str(s)
}

/// The concatenation of `a` and `b`.
pub fn join_text(a: &str, b: &str) -> (r: String)
    ensures
        r@ == a@ + b@,
{
    let mut r = String::from_str(a);
    r.append(b);
    r
}

/// The decimal digit `d`, for `d` below ten.
pub open spec fn digit_char(d: nat) -> char {
    if d == 0 {
        '0'
    } else if d == 1 {
        '1'
    } else if d == 2 {
        '2'
    } else if d == 3 {
        '3'
    } else if d == 4 {
        '4'
    } else if d == 5 {
        '5'
    } else if d == 6 {
        '6'
    } else if d == 7 {
        '7'
    } else if d == 8 {
        '8'
    } else {
        '9'
    }
}

/// The decimal numeral of `n`, without leading zeros.
pub open spec fn decimal(n: nat) -> Seq<char>
    decreases n,
{
    if n < 10 {
        seq![digit_char(n)]
    } else {
        decimal(n / 10).push(digit_char(n % 10))
    }
}

fn digit_text(d: usize) -> (s: &'static str)
    requires
        d < 10,
    ensures
        s@ == seq![digit_char(d as nat)],
{
    if d == 0 {
        proof { reveal_strlit("0"); }
        "0"
    } else if d == 1 {
        proof { reveal_strlit("1"); }
        "1"
    } else if d == 2 {
        proof { reveal_strlit("2"); }
        "2"
    } else if d == 3 {
        proof { reveal_strlit("3"); }
        "3"
    } else if d == 4 {
        proof { reveal_strlit("4"); }
        "4"
    } else if d == 5 {
        proof { reveal_strlit("5"); }
        "5"
    } else if d == 6 {
        proof { reveal_strlit("6"); }
        "6"
    } else if d == 7 {
        proof { reveal_strlit("7"); }
        "7"
    } else if d == 8 {
        proof { reveal_strlit("8"); }
        "8"
    } else {
        proof { reveal_strlit("9"); }
        "9"
    }
}

/// The decimal numeral of `n`.
pub fn decimal_text(n: usize) -> (s: String)
    ensures
        s@ == decimal(n as nat),
{
    let mut r = copy_text(digit_text(n % 10));
    let mut m: usize = n / 10;
    while m > 0
        invariant
            decimal(n as nat) == (if m == 0 { Seq::<char>::empty() } else { decimal(m as nat) }) + r@,
        decreases m,
    {
        let ghost before = r@;
        r = join_text(digit_text(m % 10), r.as_str());
        proof {
            assert(decimal(m as nat) == (if m / 10 == 0 { Seq::<char>::empty() } else {
                decimal((m / 10) as nat)
            }) + seq![digit_char((m % 10) as nat)]);
            assert(decimal(m as nat) + before =~= (if m / 10 == 0 { Seq::<char>::empty() } else {
                decimal((m / 10) as nat)
            }) + r@);
        }
        m = m / 10;
    }
    assert(Seq::<char>::empty() + r@ =~= r@);
    r
}

/// `a` comes before `b` in lexicographic order of code points (the order of
/// `String`'s `Ord`, which compares UTF-8 bytes).
pub open spec fn text_lt(a: Seq<char>, b: Seq<char>) -> bool
    decreases a.len(),
{
    if a.len() == 0 {
        b.len() > 0
    } else if b.len() == 0 {
        false
    } else if a[0] != b[0] {
        (a[0] as int) < (b[0] as int)
    } else {
        text_lt(a.drop_first(), b.drop_first())
    }
}

/// The lexicographic order is irreflexive.
pub proof fn lemma_text_irreflexive(a: Seq<char>)
    ensures
        !text_lt(a, a),
    decreases a.len(),
{
    if a.len() > 0 {
        lemma_text_irreflexive(a.drop_first());
    }
}

/// The lexicographic order is asymmetric and total.
pub proof fn lemma_text_total(a: Seq<char>, b: Seq<char>)
    ensures
        text_lt(a, b) ==> !text_lt(b, a),
        a != b ==> text_lt(a, b) || text_lt(b, a),
    decreases a.len(),
{
    if a.len() > 0 && b.len() > 0 {
        lemma_text_total(a.drop_first(), b.drop_first());
        if a != b && a[0] == b[0] {
            assert(a =~= seq![a[0]] + a.drop_first());
            assert(b =~= seq![b[0]] + b.drop_first());
        }
    } else if a.len() == 0 && b.len() == 0 {
        assert(a =~= b);
    }
}

/// The lexicographic order is transitive.
pub proof fn lemma_text_transitive(a: Seq<char>, b: Seq<char>, c: Seq<char>)
    ensures
        text_lt(a, b) && text_lt(b, c) ==> text_lt(a, c),
    decreases a.len(),
{
    if a.len() > 0 && b.len() > 0 && c.len() > 0 {
        lemma_text_transitive(a.drop_first(), b.drop_first(), c.drop_first());
    }
}

/// Whether `a` comes before `b` in lexicographic order.
pub fn text_less(a: &str, b: &str) -> (r: bool)
    ensures
        r == text_lt(a@, b@),
{
    let n = a.unicode_len();
    let m = b.unicode_len();
    let mut i: usize = 0;
    assert(a@.skip(0) =~= a@);
    assert(b@.skip(0) =~= b@);
    while i < n && i < m
        invariant
            n == a@.len(),
            m == b@.len(),
            i <= n,
            i <= m,
            forall|j: int| 0 <= j < i ==> a@[j] == b@[j],
            text_lt(a@, b@) == text_lt(a@.skip(i as int), b@.skip(i as int)),
        decreases n - i,
    {
        let x = a.get_char(i);
        let y = b.get_char(i);
        proof {
            assert(a@.skip(i as int)[0] == x);
            assert(b@.skip(i as int)[0] == y);
            assert(a@.skip(i as int).drop_first() =~= a@.skip(i + 1));
            assert(b@.skip(i as int).drop_first() =~= b@.skip(i + 1));
        }
        if x != y {
            assert((x as u32) as int == x as int);
            assert((y as u32) as int == y as int);
            return (x as u32) < (y as u32);
        }
        i = i + 1;
    }
    i < m && i == n
}

} // verus!

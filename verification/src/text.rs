//! Character-exact string helpers shared by the memory tiers: equality,
//! blank detection, trimming, and the trusted character classifications they
//! are built on.

use vstd::prelude::*;
use vstd::string::StrSliceExecFns;

verus! {

/// Whether `char::is_whitespace` accepts `c`; a pure function of the
/// character alone.
pub uninterp spec fn is_white(c: char) -> bool;

/// Whether `char::is_alphanumeric` accepts `c`; a pure function of the
/// character alone.
pub uninterp spec fn is_alnum(c: char) -> bool;

/// The lowercase form that `str::to_lowercase` gives a string; a pure
/// function of the characters alone.
pub uninterp spec fn lower_of(s: Seq<char>) -> Seq<char>;

/// Relies on char::is_whitespace: a pure classification of one character.
pub assume_specification[ char::is_whitespace ](c: char) -> (r: bool)
    ensures
        r == is_white(c),
;

/// Relies on char::is_alphanumeric: a pure classification of one character.
pub assume_specification[ char::is_alphanumeric ](c: char) -> (r: bool)
    ensures
        r == is_alnum(c),
;

/// Relies on str::to_lowercase: the result depends on the characters alone,
/// and every character lowercases to one or more characters, so the result
/// is empty exactly when the input is.
pub assume_specification[ str::to_lowercase ](s: &str) -> (r: String)
    ensures
        r@ == lower_of(s@),
        r@.len() == 0 <==> s@.len() == 0,
;

/// Character-for-character string equality.
pub fn str_eq(a: &str, b: &str) -> (r: bool)
    ensures
        r == (a@ == b@),
{
    let la = a.unicode_len();
    let lb = b.unicode_len();
    if la != lb {
        return false;
    }
    let mut i: usize = 0;
    while i < la
        invariant
            la == a@.len() == b@.len(),
            i <= la,
            forall|j: int| 0 <= j < i ==> a@[j] == b@[j],
        decreases la - i,
    {
        if a.get_char(i) != b.get_char(i) {
            return false;
        }
        i += 1;
    }
    proof {
        assert(a@ =~= b@);
    }
    true
}

/// Whether every character of `s` is whitespace, i.e. whether `s` trims to
/// the empty string.
pub open spec fn spec_is_blank(s: Seq<char>) -> bool {
    forall|i: int| 0 <= i < s.len() ==> is_white(s[i])
}

/// True exactly when `s` contains no non-whitespace character.
pub fn is_blank(s: &str) -> (r: bool)
    ensures
        r == spec_is_blank(s@),
{
    let n = s.unicode_len();
    let mut i: usize = 0;
    while i < n
        invariant
            n == s@.len(),
            i <= n,
            forall|j: int| 0 <= j < i ==> is_white(s@[j]),
        decreases n - i,
    {
        if !s.get_char(i).is_whitespace() {
            return false;
        }
        i += 1;
    }
    true
}

/// `s` with leading characters dropped while `is_white` holds.
pub open spec fn trim_front_white(s: Seq<char>) -> Seq<char>
    decreases s.len(),
{
    if s.len() == 0 {
        s
    } else if is_white(s[0]) {
        trim_front_white(s.drop_first())
    } else {
        s
    }
}

/// `s` with trailing characters dropped while `is_white` holds.
pub open spec fn trim_back_white(s: Seq<char>) -> Seq<char>
    decreases s.len(),
{
    if s.len() == 0 {
        s
    } else if is_white(s.last()) {
        trim_back_white(s.drop_last())
    } else {
        s
    }
}

/// `s` without leading and trailing whitespace, as `str::trim` leaves it.
pub open spec fn spec_trim(s: Seq<char>) -> Seq<char> {
    trim_back_white(trim_front_white(s))
}

proof fn lemma_trim_front_white_skip(s: Seq<char>, a: int)
    requires
        0 <= a <= s.len(),
        forall|j: int| 0 <= j < a ==> is_white(s[j]),
    ensures
        trim_front_white(s) == trim_front_white(s.skip(a)),
    decreases a,
{
    if a > 0 {
        assert(s.skip(1) =~= s.drop_first());
        lemma_trim_front_white_skip(s.drop_first(), a - 1);
        assert(s.drop_first().skip(a - 1) =~= s.skip(a));
    } else {
        assert(s.skip(0) =~= s);
    }
}

proof fn lemma_trim_front_white_all(s: Seq<char>)
    requires
        forall|j: int| 0 <= j < s.len() ==> is_white(s[j]),
    ensures
        trim_front_white(s) == Seq::<char>::empty(),
    decreases s.len(),
{
    if s.len() > 0 {
        lemma_trim_front_white_all(s.drop_first());
    } else {
        assert(s =~= Seq::<char>::empty());
    }
}

proof fn lemma_trim_front_white_stops(s: Seq<char>)
    requires
        s.len() > 0,
        !is_white(s[0]),
    ensures
        trim_front_white(s) == s,
{
}

proof fn lemma_trim_back_white_take(s: Seq<char>, b: int)
    requires
        0 <= b <= s.len(),
        forall|j: int| b <= j < s.len() ==> is_white(s[j]),
    ensures
        trim_back_white(s) == trim_back_white(s.take(b)),
    decreases s.len() - b,
{
    if b < s.len() {
        assert(s.drop_last() =~= s.take(s.len() - 1));
        lemma_trim_back_white_take(s.drop_last(), b);
        assert(s.drop_last().take(b) =~= s.take(b));
    } else {
        assert(s.take(b) =~= s);
    }
}

/// `str::trim` over characters: drops leading and trailing whitespace.
pub fn trim(s: &str) -> (r: String)
    ensures
        r@ == spec_trim(s@),
{
    let n = s.unicode_len();
    let mut a: usize = 0;
    while a < n && s.get_char(a).is_whitespace()
        invariant
            n == s@.len(),
            a <= n,
            forall|j: int| 0 <= j < a ==> is_white(s@[j]),
        decreases n - a,
    {
        a += 1;
    }
    if a == n {
        proof {
            lemma_trim_front_white_all(s@);
            assert(trim_back_white(Seq::<char>::empty()) =~= Seq::<char>::empty());
        }
        return String::new();
    }
    let mut b: usize = n;
    while b > a && s.get_char(b - 1).is_whitespace()
        invariant
            n == s@.len(),
            a <= b <= n,
            a < n,
            !is_white(s@[a as int]),
            forall|j: int| b <= j < n ==> is_white(s@[j]),
        decreases b,
    {
        b -= 1;
    }
    let out = s.substring_char(a, b);
    proof {
        lemma_trim_front_white_skip(s@, a as int);
        assert(s@.skip(a as int).len() > 0);
        assert(s@.skip(a as int)[0] == s@[a as int]);
        lemma_trim_front_white_stops(s@.skip(a as int));
        lemma_trim_back_white_take(s@.skip(a as int), b - a);
        assert(s@.skip(a as int).take(b - a) =~= s@.subrange(a as int, b as int));
        // b > a, and s@[b-1] is not whitespace, so the tail trim stops at once
        assert(s@.subrange(a as int, b as int).last() == s@[b - 1]);
    }
    out.to_owned()
}

/// `s` with leading characters dropped while they are not alphanumeric.
pub open spec fn trim_front_nonalnum(s: Seq<char>) -> Seq<char>
    decreases s.len(),
{
    if s.len() == 0 {
        s
    } else if !is_alnum(s[0]) {
        trim_front_nonalnum(s.drop_first())
    } else {
        s
    }
}

/// `s` with trailing characters dropped while they are not alphanumeric.
pub open spec fn trim_back_nonalnum(s: Seq<char>) -> Seq<char>
    decreases s.len(),
{
    if s.len() == 0 {
        s
    } else if !is_alnum(s.last()) {
        trim_back_nonalnum(s.drop_last())
    } else {
        s
    }
}

/// `s` without leading and trailing non-alphanumeric characters.
pub open spec fn spec_trim_token(s: Seq<char>) -> Seq<char> {
    trim_back_nonalnum(trim_front_nonalnum(s))
}

proof fn lemma_trim_front_nonalnum_skip(s: Seq<char>, a: int)
    requires
        0 <= a <= s.len(),
        forall|j: int| 0 <= j < a ==> !is_alnum(s[j]),
    ensures
        trim_front_nonalnum(s) == trim_front_nonalnum(s.skip(a)),
    decreases a,
{
    if a > 0 {
        assert(s.skip(1) =~= s.drop_first());
        lemma_trim_front_nonalnum_skip(s.drop_first(), a - 1);
        assert(s.drop_first().skip(a - 1) =~= s.skip(a));
    } else {
        assert(s.skip(0) =~= s);
    }
}

proof fn lemma_trim_front_nonalnum_all(s: Seq<char>)
    requires
        forall|j: int| 0 <= j < s.len() ==> !is_alnum(s[j]),
    ensures
        trim_front_nonalnum(s) == Seq::<char>::empty(),
    decreases s.len(),
{
    if s.len() > 0 {
        lemma_trim_front_nonalnum_all(s.drop_first());
    } else {
        assert(s =~= Seq::<char>::empty());
    }
}

proof fn lemma_trim_back_nonalnum_take(s: Seq<char>, b: int)
    requires
        0 <= b <= s.len(),
        forall|j: int| b <= j < s.len() ==> !is_alnum(s[j]),
    ensures
        trim_back_nonalnum(s) == trim_back_nonalnum(s.take(b)),
    decreases s.len() - b,
{
    if b < s.len() {
        assert(s.drop_last() =~= s.take(s.len() - 1));
        lemma_trim_back_nonalnum_take(s.drop_last(), b);
        assert(s.drop_last().take(b) =~= s.take(b));
    } else {
        assert(s.take(b) =~= s);
    }
}

/// Strips leading and trailing non-alphanumeric characters from a token.
pub fn trim_token(s: &str) -> (r: String)
    ensures
        r@ == spec_trim_token(s@),
{
    let n = s.unicode_len();
    let mut a: usize = 0;
    while a < n && !s.get_char(a).is_alphanumeric()
        invariant
            n == s@.len(),
            a <= n,
            forall|j: int| 0 <= j < a ==> !is_alnum(s@[j]),
        decreases n - a,
    {
        a += 1;
    }
    if a == n {
        proof {
            lemma_trim_front_nonalnum_all(s@);
            assert(trim_back_nonalnum(Seq::<char>::empty()) =~= Seq::<char>::empty());
        }
        return String::new();
    }
    let mut b: usize = n;
    while b > a && !s.get_char(b - 1).is_alphanumeric()
        invariant
            n == s@.len(),
            a <= b <= n,
            a < n,
            is_alnum(s@[a as int]),
            forall|j: int| b <= j < n ==> !is_alnum(s@[j]),
        decreases b,
    {
        b -= 1;
    }
    assert(b > a);
    let out = s.substring_char(a, b);
    proof {
        lemma_trim_front_nonalnum_skip(s@, a as int);
        assert(s@.skip(a as int).len() > 0);
        assert(s@.skip(a as int)[0] == s@[a as int]);
        lemma_trim_back_nonalnum_take(s@.skip(a as int), b - a);
        assert(s@.skip(a as int).take(b - a) =~= s@.subrange(a as int, b as int));
        assert(s@.subrange(a as int, b as int).last() == s@[b - 1]);
    }
    out.to_owned()
}

} // verus!
